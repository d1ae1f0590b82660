//! The errors of the renderer and the message that each shows.

use vstd::prelude::*;
use crate::text::join;

verus! {

/// Why the renderer gave up. Each case carries the text of its cause.
#[derive(Debug)]
pub enum RenderError {
    /// The drawing surface failed.
    SDLError(String),
    /// No drawing context could be made.
    ContextError(String),
    /// No window could be built.
    WindowBuildError(String),
    /// The drawing library could not be set up.
    IntegerOrSdlError(String),
    /// The mesh file could not be read.
    FileReadError(String),
    /// A vertex line is malformed.
    VertexParsingError(String),
    /// A normal line is malformed.
    NormalParsingError(String),
    /// A texture coordinate line is malformed.
    TextureParsingError(String),
    /// A face line is malformed.
    FaceParsingError(String),
}

impl RenderError {
    /// The text of the cause.
    pub open spec fn detail(&self) -> Seq<char> {
        match self {
            RenderError::SDLError(msg) => msg@,
            RenderError::ContextError(msg) => msg@,
            RenderError::WindowBuildError(msg) => msg@,
            RenderError::IntegerOrSdlError(msg) => msg@,
            RenderError::FileReadError(msg) => msg@,
            RenderError::VertexParsingError(msg) => msg@,
            RenderError::NormalParsingError(msg) => msg@,
            RenderError::TextureParsingError(msg) => msg@,
            RenderError::FaceParsingError(msg) => msg@,
        }
    }

    /// What the message of each case begins with.
    pub open spec fn heading(&self) -> Seq<char> {
        match self {
            RenderError::SDLError(_) => "SDL error: "@,
            RenderError::ContextError(_) => "Unable to create context: "@,
            RenderError::WindowBuildError(_) => "Unable to build window: "@,
            RenderError::IntegerOrSdlError(_) => "Unable to initialize SDL: "@,
            RenderError::FileReadError(_) => "Unable to read file: "@,
            RenderError::VertexParsingError(_) => "Unable to parse vertex: "@,
            RenderError::NormalParsingError(_) => "Unable to parse normal: "@,
            RenderError::TextureParsingError(_) => "Unable to parse texture: "@,
            RenderError::FaceParsingError(_) => "Unable to parse face: "@,
        }
    }

    /// The message shown to the user: the heading of the case, then the
    /// text of the cause.
    pub fn message(&self) -> (s: String)
        ensures
            s@ == self.heading() + self.detail(),
    {
        match self {
            RenderError::SDLError(msg) => join("SDL error: ", msg.as_str()),
            RenderError::ContextError(msg) => join("Unable to create context: ", msg.as_str()),
            RenderError::WindowBuildError(msg) => join("Unable to build window: ", msg.as_str()),
            RenderError::IntegerOrSdlError(msg) => join(
                "Unable to initialize SDL: ",
                msg.as_str(),
            ),
            RenderError::FileReadError(msg) => join("Unable to read file: ", msg.as_str()),
            RenderError::VertexParsingError(msg) => join("Unable to parse vertex: ", msg.as_str()),
            RenderError::NormalParsingError(msg) => join("Unable to parse normal: ", msg.as_str()),
            RenderError::TextureParsingError(msg) => join(
                "Unable to parse texture: ",
                msg.as_str(),
            ),
            RenderError::FaceParsingError(msg) => join("Unable to parse face: ", msg.as_str()),
        }
    }
}

impl From<String> for RenderError {
    /// A bare message is an error of the drawing surface.
    fn from(msg: String) -> (err: RenderError) {
        RenderError::SDLError(msg)
    }
}

impl vstd::std_specs::convert::FromSpecImpl<String> for RenderError {
    open spec fn obeys_from_spec() -> bool {
        true
    }

    open spec fn from_spec(msg: String) -> RenderError {
        RenderError::SDLError(msg)
    }
}

} // verus!

use tinyrs::common::Resolution;
use tinyrs::errors::RenderError;
use tinyrs::geometry::{Vec3f, VecUV2f};
use tinyrs::model::Face;
use tinyrs::renderer::{PixelBox, Point, Renderer, Shading};

fn line(from: (i32, i32), to: (i32, i32)) -> Vec<(i32, i32)> {
    Renderer::new(Resolution::new((16, 16)))
        .render_line(Point::new(from.0, from.1), Point::new(to.0, to.1))
        .iter()
        .map(|p| (p.x, p.y))
        .collect()
}

#[test]
fn resolution_from_a_pair() {
    let res = Resolution::new((640, 480));
    assert_eq!((res.width, res.height), (640, 480));
    assert_eq!(Resolution::from((3, 4)), Resolution { width: 3, height: 4 });
    assert_eq!(Resolution::from(&res), res);
    assert_eq!(Resolution::default(), Resolution { width: 1024, height: 768 });
    assert_eq!(res.pixel_count(), 307200);
    assert_eq!(Resolution::new((u32::MAX, u32::MAX)).pixel_count(), 18446744065119617025);
    assert_eq!(Resolution::new((0, 9)).pixel_count(), 0);
}

#[test]
fn error_messages() {
    let text = |s: &str| s.to_string();
    assert_eq!(RenderError::SDLError(text("a")).message(), "SDL error: a");
    assert_eq!(RenderError::ContextError(text("b")).message(), "Unable to create context: b");
    assert_eq!(RenderError::WindowBuildError(text("c")).message(), "Unable to build window: c");
    assert_eq!(
        RenderError::IntegerOrSdlError(text("d")).message(),
        "Unable to initialize SDL: d"
    );
    assert_eq!(RenderError::FileReadError(text("e")).message(), "Unable to read file: e");
    assert_eq!(RenderError::VertexParsingError(text("f")).message(), "Unable to parse vertex: f");
    assert_eq!(RenderError::NormalParsingError(text("g")).message(), "Unable to parse normal: g");
    assert_eq!(
        RenderError::TextureParsingError(text("h")).message(),
        "Unable to parse texture: h"
    );
    assert_eq!(RenderError::FaceParsingError(text("i")).message(), "Unable to parse face: i");
    assert_eq!(RenderError::from(text("lost")).message(), "SDL error: lost");
}

#[test]
fn shallow_line() {
    assert_eq!(line((0, 0), (3, 1)), vec![(0, 0), (1, 0), (2, 1), (3, 1)]);
}

#[test]
fn reversed_line_gives_the_same_pixels_in_the_same_order() {
    assert_eq!(line((3, 1), (0, 0)), vec![(0, 0), (1, 0), (2, 1), (3, 1)]);
    assert_eq!(line((0, 0), (3, -1)), vec![(0, 0), (1, 0), (2, -1), (3, -1)]);
    assert_eq!(line((3, -1), (0, 0)), vec![(0, 0), (1, 0), (2, -1), (3, -1)]);
}

#[test]
fn steep_line_is_walked_along_y() {
    assert_eq!(line((0, 0), (1, 3)), vec![(0, 0), (0, 1), (1, 2), (1, 3)]);
    assert_eq!(line((1, 3), (0, 0)), vec![(0, 0), (0, 1), (1, 2), (1, 3)]);
    assert_eq!(line((2, 3), (2, 0)), vec![(2, 0), (2, 1), (2, 2), (2, 3)]);
    assert_eq!(line((0, 0), (-1, 3)), vec![(0, 0), (0, 1), (-1, 2), (-1, 3)]);
}

#[test]
fn diagonal_line() {
    assert_eq!(line((0, 0), (2, 2)), vec![(0, 0), (1, 1), (2, 2)]);
    assert_eq!(line((2, 2), (0, 0)), vec![(0, 0), (1, 1), (2, 2)]);
    assert_eq!(line((0, 2), (2, 0)), vec![(0, 2), (1, 1), (2, 0)]);
}

#[test]
fn line_rounds_a_half_down() {
    assert_eq!(line((0, 0), (2, 1)), vec![(0, 0), (1, 0), (2, 1)]);
    assert_eq!(line((0, 0), (4, 2)), vec![(0, 0), (1, 0), (2, 1), (3, 1), (4, 2)]);
    assert_eq!(
        line((0, 0), (7, 2)),
        vec![(0, 0), (1, 0), (2, 1), (3, 1), (4, 1), (5, 1), (6, 2), (7, 2)]
    );
}

#[test]
fn flat_lines_and_points() {
    assert_eq!(line((5, 5), (5, 5)), vec![(5, 5)]);
    assert_eq!(line((-2, 7), (1, 7)), vec![(-2, 7), (-1, 7), (0, 7), (1, 7)]);
}

#[test]
fn line_at_the_ends_of_the_number_range() {
    let points = line((i32::MAX - 2, i32::MIN), (i32::MAX, i32::MIN + 1));
    assert_eq!(
        points,
        vec![(i32::MAX - 2, i32::MIN), (i32::MAX - 1, i32::MIN), (i32::MAX, i32::MIN + 1)]
    );
}

#[test]
fn box_of_a_triangle_on_the_canvas() {
    let renderer = Renderer::new((10, 8).into());
    assert_eq!(
        renderer.bounding_box([2, 5, 4], [0, 3, 1]),
        PixelBox { min_x: 2, min_y: 0, max_x: 5, max_y: 3 }
    );
}

#[test]
fn box_stops_at_the_last_column_and_row() {
    let renderer = Renderer::new(Resolution::from(&Resolution::new((10, 8))));
    assert_eq!(
        renderer.bounding_box([2, 5, 20], [7, 8, 9]),
        PixelBox { min_x: 2, min_y: 7, max_x: 9, max_y: 7 }
    );
    assert_eq!(
        renderer.bounding_box([50, 60, 70], [0, 0, 0]),
        PixelBox { min_x: 9, min_y: 0, max_x: 9, max_y: 0 }
    );
    assert_eq!(
        Renderer::new(Resolution::new((1, 1))).bounding_box([u32::MAX, 0, 3], [1, 2, 3]),
        PixelBox { min_x: 0, min_y: 0, max_x: 0, max_y: 0 }
    );
}

#[test]
fn place_in_the_depth_buffer() {
    let renderer = Renderer::new(Resolution::new((640, 480)));
    assert_eq!(renderer.pixel_index(0, 0), 0);
    assert_eq!(renderer.pixel_index(3, 2), 1283);
    assert_eq!(renderer.pixel_index(639, 479), 307199);
    let huge = Renderer::new(Resolution::new((u32::MAX, u32::MAX)));
    assert_eq!(huge.pixel_index(u32::MAX, u32::MAX), 18446744069414584320);
    assert_eq!(Renderer::default().pixel_index(1, 1), 1025);
}

fn face(vertices: usize, normals: usize) -> Face<f64> {
    Face {
        vertices: vec![Vec3f::new(0.0, 0.0, 0.0); vertices],
        textures: Vec::<VecUV2f<f64>>::new(),
        normals: vec![Vec3f::new(0.0, 0.0, 1.0); normals],
    }
}

#[test]
fn shading_of_a_face() {
    let renderer = Renderer::default();
    assert_eq!(renderer.shading(&face(3, 0), 0), Shading::Flat);
    assert_eq!(renderer.shading(&face(3, 2), 2), Shading::Flat);
    assert_eq!(renderer.shading(&face(3, 3), 3), Shading::Lit);
    assert_eq!(renderer.shading(&face(3, 3), 2), Shading::Skipped);
    assert_eq!(renderer.shading(&face(3, 3), 0), Shading::Skipped);
    assert_eq!(renderer.shading(&face(4, 4), 4), Shading::Skipped);
    assert_eq!(renderer.shading(&face(2, 0), 0), Shading::Skipped);
    assert_eq!(renderer.shading(&face(0, 3), 3), Shading::Skipped);
}

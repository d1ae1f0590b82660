use tinyrs::errors::RenderError;
use tinyrs::geometry::{Vec3f, VecUV2f};
use tinyrs::model::{
    number_words, parse_vec3f, parse_vec_uv_2f, Coordinate, Directive, Face, FaceIndex, Loader,
    Model,
};

fn read_numbers(line: &str) -> Vec<Result<f64, String>> {
    number_words(line)
        .iter()
        .map(|word| word.parse::<f64>().map_err(|e| e.to_string()))
        .collect()
}

fn load(text: &[&str]) -> Result<Model<f64>, RenderError> {
    let lines: Vec<String> = text.iter().map(|line| line.to_string()).collect();
    let numbers: Vec<Vec<Result<f64, String>>> =
        lines.iter().map(|line| read_numbers(line)).collect();
    Model::from_lines(&lines, &numbers)
}

fn message_of(result: Result<Model<f64>, RenderError>) -> String {
    match result {
        Ok(_) => panic!("the text was accepted"),
        Err(err) => err.message(),
    }
}

#[test]
fn single_triangle_without_attributes() {
    let model = load(&["v 0 0 0", "v 1 0 0", "v 0 1 0", "f 1 2 3"]).unwrap();
    assert_eq!(model.len(), 1);
    let face = model.face(0);
    assert_eq!(face.vertices.len(), 3);
    assert_eq!(face.normals.len(), 0);
    assert_eq!(face.textures.len(), 0);
    assert_eq!((face.vertices[0].x, face.vertices[0].y, face.vertices[0].z), (0.0, 0.0, 0.0));
    assert_eq!((face.vertices[1].x, face.vertices[1].y, face.vertices[1].z), (1.0, 0.0, 0.0));
    assert_eq!((face.vertices[2].x, face.vertices[2].y, face.vertices[2].z), (0.0, 1.0, 0.0));
}

#[test]
fn vertex_index_past_the_last_vertex_fails_with_its_line() {
    let result = load(&["v 0 0 0", "v 1 0 0", "v 0 1 0", "f 1 2 4"]);
    assert!(matches!(result, Err(RenderError::FaceParsingError(_))));
    assert_eq!(
        message_of(result),
        "Unable to parse face: at line 4: face index out of bounds: 4"
    );
}

#[test]
fn vertex_index_zero_is_out_of_bounds() {
    let result = load(&["v 0 0 0", "f 0 1 1"]);
    assert_eq!(
        message_of(result),
        "Unable to parse face: at line 2: face index out of bounds: 0"
    );
}

#[test]
fn textures_named_by_some_corners_only_are_dropped() {
    let model = load(&["v 0 0 0", "v 1 0 0", "v 0 1 0", "vt 0.5 0.25", "f 1/1 2/1 3"]).unwrap();
    let face = model.face(0);
    assert_eq!(face.vertices.len(), 3);
    assert_eq!(face.textures.len(), 0);
    assert_eq!(face.normals.len(), 0);
}

#[test]
fn normals_named_by_some_corners_only_are_dropped() {
    let model = load(&[
        "v 0 0 0",
        "v 1 0 0",
        "v 0 1 0",
        "vt 0.5 0.25",
        "vn 0 0 1",
        "f 1/1/1 2/1/1 3/1",
    ])
    .unwrap();
    let face = model.face(0);
    assert_eq!(face.vertices.len(), 3);
    assert_eq!(face.textures.len(), 3);
    assert_eq!(face.normals.len(), 0);
    assert_eq!((face.textures[2].u, face.textures[2].v), (0.5, 0.25));
}

#[test]
fn complete_corners_keep_every_attribute() {
    let model = load(&[
        "v 0 0 0",
        "v 1 0 0",
        "v 0 1 0",
        "vt 0 0",
        "vt 1 1",
        "vn 0 0 1",
        "vn 0 1 0",
        "f 1/2/1 2/1/2 3/2/2",
    ])
    .unwrap();
    let face = model.face(0);
    assert_eq!(face.vertices.len(), 3);
    assert_eq!(face.textures.len(), 3);
    assert_eq!(face.normals.len(), 3);
    assert_eq!((face.textures[0].u, face.textures[0].v), (1.0, 1.0));
    assert_eq!((face.textures[1].u, face.textures[1].v), (0.0, 0.0));
    assert_eq!((face.normals[0].x, face.normals[0].y, face.normals[0].z), (0.0, 0.0, 1.0));
    assert_eq!((face.normals[2].x, face.normals[2].y, face.normals[2].z), (0.0, 1.0, 0.0));
}

#[test]
fn empty_texture_index_means_none() {
    let model = load(&["v 0 0 0", "v 1 0 0", "v 0 1 0", "vn 0 0 1", "f 1//1 2//1 3//1"]).unwrap();
    let face = model.face(0);
    assert_eq!(face.textures.len(), 0);
    assert_eq!(face.normals.len(), 3);
}

#[test]
fn texture_index_zero_means_none() {
    let model = load(&["v 0 0 0", "v 1 0 0", "v 0 1 0", "vt 0 0", "f 1/0 2/1 3/1"]).unwrap();
    assert_eq!(model.face(0).textures.len(), 0);
}

#[test]
fn texture_index_out_of_bounds() {
    let result = load(&["v 0 0 0", "vt 0 0", "f 1/2"]);
    assert!(matches!(result, Err(RenderError::FaceParsingError(_))));
    assert_eq!(
        message_of(result),
        "Unable to parse face: at line 3: texture index out of bounds: 2"
    );
}

#[test]
fn normal_index_out_of_bounds() {
    let result = load(&["v 0 0 0", "f 1//12"]);
    assert_eq!(
        message_of(result),
        "Unable to parse face: at line 2: normal index out of bounds: 12"
    );
}

#[test]
fn vertex_index_that_is_no_number() {
    let result = load(&["v 0 0 0", "f 1 x 1"]);
    assert_eq!(
        message_of(result),
        "Unable to parse face: at line 2: invalid vertex index format: invalid digit found in string"
    );
}

#[test]
fn empty_vertex_index() {
    let result = load(&["v 0 0 0", "f /1"]);
    assert_eq!(
        message_of(result),
        "Unable to parse face: at line 2: invalid vertex index format: cannot parse integer from empty string"
    );
}

#[test]
fn texture_and_normal_index_that_are_no_numbers() {
    assert_eq!(
        message_of(load(&["v 0 0 0", "f 1/a"])),
        "Unable to parse face: at line 2: invalid texture index format: invalid digit found in string"
    );
    assert_eq!(
        message_of(load(&["v 0 0 0", "f 1//-1"])),
        "Unable to parse face: at line 2: invalid normal index format: invalid digit found in string"
    );
}

#[test]
fn first_refused_corner_wins() {
    let result = load(&["v 0 0 0", "f 1 7 x"]);
    assert_eq!(
        message_of(result),
        "Unable to parse face: at line 2: face index out of bounds: 7"
    );
}

#[test]
fn missing_and_invalid_coordinates() {
    let result = load(&["v 1 2"]);
    assert!(matches!(result, Err(RenderError::VertexParsingError(_))));
    assert_eq!(message_of(result), "Unable to parse vertex: at line 1: missing coordinate z");
    assert_eq!(
        message_of(load(&["v 1 2 3", "v 1 y 3"])),
        "Unable to parse vertex: at line 2: invalid coordinate y format: invalid float literal"
    );
    let result = load(&["vn 1"]);
    assert!(matches!(result, Err(RenderError::NormalParsingError(_))));
    assert_eq!(message_of(result), "Unable to parse normal: at line 1: missing coordinate y");
    let result = load(&["", "vt 0.5"]);
    assert!(matches!(result, Err(RenderError::TextureParsingError(_))));
    assert_eq!(message_of(result), "Unable to parse texture: at line 2: missing coordinate v");
    assert_eq!(
        message_of(load(&["vt u 1"])),
        "Unable to parse texture: at line 1: invalid coordinate u format: invalid float literal"
    );
    assert_eq!(
        message_of(load(&["v "])),
        "Unable to parse vertex: at line 1: missing coordinate x"
    );
}

#[test]
fn first_refused_line_wins() {
    let result = load(&["v 0 0 0", "v oops", "f 9"]);
    assert_eq!(
        message_of(result),
        "Unable to parse vertex: at line 2: invalid coordinate x format: invalid float literal"
    );
}

#[test]
fn other_lines_are_ignored() {
    let model = load(&[
        "# a comment",
        "",
        "v",
        "o thing",
        "v 0 0 0 1.0",
        "v\t9",
        "  v 1 1 1",
        "g group",
        "f 1",
        "f",
    ])
    .unwrap();
    assert_eq!(model.len(), 1);
    assert_eq!(model.face(0).vertices.len(), 1);
}

#[test]
fn faces_keep_any_number_of_corners() {
    let model = load(&["v 0 0 0", "v 1 0 0", "v 0 1 0", "v 1 1 0", "f 1 2 3 4", "f 1 2", "f "])
        .unwrap();
    assert_eq!(model.len(), 3);
    assert_eq!(model.face(0).vertices.len(), 4);
    assert_eq!(model.face(1).vertices.len(), 2);
    assert_eq!(model.face(2).vertices.len(), 0);
    assert_eq!(model.face(0).vertices[3].x, 1.0);
    assert_eq!(model.face(0).vertices[3].y, 1.0);
}

#[test]
fn a_fourth_index_of_a_corner_is_ignored() {
    let model = load(&["v 0 0 0", "vt 0 0", "vn 0 0 1", "f 1/1/1/zzz"]).unwrap();
    assert_eq!(model.face(0).vertices.len(), 1);
    assert_eq!(model.face(0).textures.len(), 1);
    assert_eq!(model.face(0).normals.len(), 1);
}

#[test]
fn faces_see_only_what_was_read_before_them() {
    let result = load(&["v 0 0 0", "f 1 2", "v 1 1 1"]);
    assert_eq!(
        message_of(result),
        "Unable to parse face: at line 2: face index out of bounds: 2"
    );
}

#[test]
fn directive_and_arguments() {
    assert_eq!(Directive::of("v 1 2 3"), (Directive::Vertex, "1 2 3"));
    assert_eq!(Directive::of("vn  1 2 3"), (Directive::Normal, " 1 2 3"));
    assert_eq!(Directive::of("vt 1 2"), (Directive::Texture, "1 2"));
    assert_eq!(Directive::of("f 1 2 3"), (Directive::Face, "1 2 3"));
    assert_eq!(Directive::of("f"), (Directive::Ignored, ""));
    assert_eq!(Directive::of("vx 1"), (Directive::Ignored, "1"));
    assert_eq!(Directive::of(" v 1"), (Directive::Ignored, "v 1"));
    assert_eq!(Directive::of(""), (Directive::Ignored, ""));
}

#[test]
fn number_words_of_a_line() {
    assert_eq!(number_words("v 1 2 3 4"), vec!["1", "2", "3"]);
    assert_eq!(number_words("vn  1\t2 "), vec!["1", "2"]);
    assert_eq!(number_words("vt 1 2 3"), vec!["1", "2"]);
    assert_eq!(number_words("vt"), Vec::<&str>::new());
    assert_eq!(number_words("f 1 2 3"), Vec::<&str>::new());
    assert_eq!(number_words("# 1 2 3"), Vec::<&str>::new());
}

#[test]
fn loader_takes_lines_one_by_one() {
    let mut loader: Loader<f64> = Loader::new();
    assert_eq!(loader.accept("v 1 2 3", &read_numbers("v 1 2 3")).unwrap(), Directive::Vertex);
    assert_eq!(loader.accept("vn 0 0 1", &read_numbers("vn 0 0 1")).unwrap(), Directive::Normal);
    assert_eq!(loader.accept("vt 0 1", &read_numbers("vt 0 1")).unwrap(), Directive::Texture);
    assert_eq!(loader.accept("s off", &Vec::new()).unwrap(), Directive::Ignored);
    let refused = loader.accept("f 2", &Vec::new());
    assert_eq!(
        refused.unwrap_err().message(),
        "Unable to parse face: at line 5: face index out of bounds: 2"
    );
    assert_eq!(loader.lines, 4);
    assert_eq!(loader.faces.len(), 0);
    assert_eq!(loader.accept("f 1/1/1", &Vec::new()).unwrap(), Directive::Face);
    assert_eq!(loader.lines, 5);
    assert_eq!(loader.vertices.len(), 1);
    assert_eq!(loader.normals.len(), 1);
    assert_eq!(loader.textures.len(), 1);
    let model = loader.finish();
    assert_eq!(model.len(), 1);
    assert_eq!(model.face(0).vertices[0].y, 2.0);
}

#[test]
fn lines_without_numbers_handed_in_count_as_empty() {
    let lines = vec!["f".to_string(), "v 1 2 3".to_string()];
    let numbers: Vec<Vec<Result<f64, String>>> = Vec::new();
    let result = Model::from_lines(&lines, &numbers);
    assert_eq!(
        message_of(result),
        "Unable to parse vertex: at line 2: missing coordinate x"
    );
}

#[test]
fn walk_over_the_faces() {
    let model = load(&["v 0 0 0", "v 1 0 0", "f 1", "f 1 2"]).unwrap();
    let mut walk = model.iter();
    assert_eq!(walk.next().unwrap().vertices.len(), 1);
    assert_eq!(walk.next().unwrap().vertices.len(), 2);
    assert!(walk.next().is_none());
    assert!(walk.next().is_none());
    let empty = load(&[]).unwrap();
    assert_eq!(empty.len(), 0);
    assert!(empty.iter().next().is_none());
}

#[test]
fn face_from_the_arguments_of_a_line() {
    let vertices = vec![Vec3f::new(1, 2, 3), Vec3f::new(4, 5, 6), Vec3f::new(7, 8, 9)];
    let textures = vec![VecUV2f::new(10, 11)];
    let normals: Vec<Vec3f<i32>> = Vec::new();
    let face = Face::from(" 3/1  1/1\t2/1/ ", &vertices, &textures, &normals).unwrap();
    assert_eq!(face.vertices.len(), 3);
    assert_eq!((face.vertices[0].x, face.vertices[1].x, face.vertices[2].x), (7, 1, 4));
    assert_eq!(face.textures.len(), 3);
    assert_eq!(face.textures[0].v, 11);
    assert_eq!(face.normals.len(), 0);
    assert_eq!(
        Face::from("1 2 3/1/1", &vertices, &textures, &normals).unwrap_err(),
        "normal index out of bounds: 1"
    );
    assert_eq!(
        Face::from("+2 18446744073709551616", &vertices, &textures, &normals).unwrap_err(),
        "invalid vertex index format: number too large to fit in target type"
    );
}

#[test]
fn face_index_of_each_kind() {
    assert_eq!(FaceIndex::Vertex.parse(Some("12")), Ok(12));
    assert_eq!(FaceIndex::Vertex.parse(Some("+7")), Ok(7));
    assert_eq!(FaceIndex::Vertex.parse(Some("007")), Ok(7));
    assert_eq!(FaceIndex::Vertex.parse(Some("0")), Ok(0));
    assert_eq!(FaceIndex::Vertex.parse(None), Err("missing vertex index".to_string()));
    assert_eq!(
        FaceIndex::Vertex.parse(Some("")),
        Err("invalid vertex index format: cannot parse integer from empty string".to_string())
    );
    assert_eq!(
        FaceIndex::Vertex.parse(Some("+")),
        Err("invalid vertex index format: invalid digit found in string".to_string())
    );
    assert_eq!(
        FaceIndex::Vertex.parse(Some(" 1")),
        Err("invalid vertex index format: invalid digit found in string".to_string())
    );
    assert_eq!(FaceIndex::Texture.parse(None), Ok(0));
    assert_eq!(FaceIndex::Texture.parse(Some("")), Ok(0));
    assert_eq!(FaceIndex::Texture.parse(Some("3")), Ok(3));
    assert_eq!(
        FaceIndex::Texture.parse(Some("1.5")),
        Err("invalid texture index format: invalid digit found in string".to_string())
    );
    assert_eq!(FaceIndex::Normal.parse(None), Ok(0));
    assert_eq!(FaceIndex::Normal.parse(Some("")), Ok(0));
    assert_eq!(FaceIndex::Normal.parse(Some("41")), Ok(41));
    assert_eq!(
        FaceIndex::Normal.parse(Some("n")),
        Err("invalid normal index format: invalid digit found in string".to_string())
    );
}

#[test]
fn coordinate_of_each_name() {
    assert_eq!(Coordinate::X.name(), "x");
    assert_eq!(Coordinate::Y.name(), "y");
    assert_eq!(Coordinate::Z.name(), "z");
    assert_eq!(Coordinate::U.name(), "u");
    assert_eq!(Coordinate::V.name(), "v");
    let fine: Result<f64, String> = Ok(1.5);
    let bad: Result<f64, String> = Err("no number".to_string());
    assert_eq!(Coordinate::X.parse(Some(&fine)), Ok(1.5));
    assert_eq!(
        Coordinate::Z.parse(Some(&bad)),
        Err("invalid coordinate z format: no number".to_string())
    );
    assert_eq!(Coordinate::U.parse::<f64>(None), Err("missing coordinate u".to_string()));
}

#[test]
fn vectors_from_numbers() {
    let numbers: Vec<Result<i32, String>> = vec![Ok(1), Ok(2), Ok(3), Err("late".to_string())];
    let vec = parse_vec3f(&numbers).unwrap();
    assert_eq!((vec.x, vec.y, vec.z), (1, 2, 3));
    let uv = parse_vec_uv_2f(&numbers).unwrap();
    assert_eq!((uv.u, uv.v), (1, 2));
    let numbers: Vec<Result<i32, String>> = vec![Ok(1), Err("bad".to_string())];
    assert_eq!(parse_vec3f(&numbers).unwrap_err(), "invalid coordinate y format: bad");
    assert_eq!(parse_vec_uv_2f(&numbers).unwrap_err(), "invalid coordinate v format: bad");
    let numbers: Vec<Result<i32, String>> = vec![Err("bad".to_string())];
    assert_eq!(parse_vec3f(&numbers).unwrap_err(), "invalid coordinate x format: bad");
    let numbers: Vec<Result<i32, String>> = Vec::new();
    assert_eq!(parse_vec_uv_2f(&numbers).unwrap_err(), "missing coordinate u");
}

#[test]
fn face_index_from_what_the_number_reader_made_of_it() {
    assert_eq!(FaceIndex::Vertex.settle(Ok(3)), Ok(3));
    assert_eq!(FaceIndex::Texture.settle(Ok(0)), Ok(0));
    assert_eq!(
        FaceIndex::Vertex.settle(Err("no".to_string())),
        Err("invalid vertex index format: no".to_string())
    );
    assert_eq!(
        FaceIndex::Texture.settle(Err("no".to_string())),
        Err("invalid texture index format: no".to_string())
    );
    assert_eq!(
        FaceIndex::Normal.settle(Err(String::new())),
        Err("invalid normal index format: ".to_string())
    );
}

#[test]
fn face_from_corner_descriptors() {
    let vertices = vec![Vec3f::new(1, 2, 3), Vec3f::new(4, 5, 6)];
    let textures = vec![VecUV2f::new(7, 8), VecUV2f::new(9, 10)];
    let normals = vec![Vec3f::new(0, 0, 1)];
    let face = Face::from_parts(&vec!["2/1/1", "1/2/1"], &vertices, &textures, &normals).unwrap();
    assert_eq!((face.vertices[0].x, face.vertices[1].x), (4, 1));
    assert_eq!((face.textures[0].u, face.textures[1].u), (7, 9));
    assert_eq!((face.normals[0].z, face.normals.len()), (1, 2));
    let face = Face::from_parts(&vec!["2/1", "1//1"], &vertices, &textures, &normals).unwrap();
    assert_eq!(face.vertices.len(), 2);
    assert_eq!(face.textures.len(), 0);
    assert_eq!(face.normals.len(), 0);
    let face = Face::from_parts(&Vec::new(), &vertices, &textures, &normals).unwrap();
    assert_eq!(face.vertices.len(), 0);
    assert_eq!(
        Face::from_parts(&vec!["1", "3"], &vertices, &textures, &normals).unwrap_err(),
        "face index out of bounds: 3"
    );
    assert_eq!(
        Face::from_parts(&vec!["1 2"], &vertices, &textures, &normals).unwrap_err(),
        "invalid vertex index format: invalid digit found in string"
    );
}

use dotbim::{
    Color, DecodeError, Double, Element, EncodeError, File, Info, Json, JsonNumber, Mesh, Rotation,
    SchemaError, ValidationError, Vector,
};

fn to_value(json: &Json) -> serde_json::Value {
    match json {
        Json::Null => serde_json::Value::Null,
        Json::Bool(b) => serde_json::Value::Bool(*b),
        Json::Number(JsonNumber::PosInt(u)) => serde_json::Value::from(*u),
        Json::Number(JsonNumber::NegInt(i)) => serde_json::Value::from(*i),
        Json::Number(JsonNumber::Float(x)) => serde_json::Value::from(f64::from_bits(x.to_bits())),
        Json::String(s) => serde_json::Value::String(s.clone()),
        Json::Array(items) => serde_json::Value::Array(items.iter().map(to_value).collect()),
        Json::Object(entries) => serde_json::Value::Object(
            entries.iter().map(|(k, v)| (k.clone(), to_value(v))).collect(),
        ),
    }
}

fn to_text(json: &Json) -> String {
    serde_json::to_string(&to_value(json)).unwrap()
}

fn d(x: f64) -> Double {
    Double::from_bits(x.to_bits())
}

fn get_file_with_triangle_blue_plate() -> File {
    let mut file_info = Info::new();
    file_info.insert(String::from("Author"), String::from("Jane Doe"));

    let mut info = Info::new();
    info.insert(String::from("Name"), String::from("Triangle"));

    File::new(
        String::from("1.0.0"),
        vec![
            Mesh::new(
                0,
                vec![
                    d(0.0),d(0.0),d(0.0),
                    d(10.0),d(0.0),d(0.0),
                    d(10.0),d(-15.0),d(0.0)
                ],
                vec![
                    0,1,2
                ]
            )
        ],
        vec![
            Element::new(
                0,
                Vector::new(d(0.),d(0.),d(0.)),
                Rotation::new(d(0.),d(0.),d(0.),d(1.0)),
                String::from("d4f28792-e1e9-4e31-bcee-740dbda61e20"),
                String::from("Plate"),
                Color::new(0,120,120,255),
                None,
                info
            )
        ],
        file_info
    )
}

#[test]
fn test_new() {
    let result = get_file_with_triangle_blue_plate();

    let mut file_info = Info::new();
    file_info.insert(String::from("Author"), String::from("Jane Doe"));

    let mut info = Info::new();
    info.insert(String::from("Name"), String::from("Triangle"));

    let expected_mesh= Mesh::new(
        0,
        vec![
            d(0.0),d(0.0),d(0.0),
            d(10.0),d(0.0),d(0.0),
            d(10.0),d(-15.0),d(0.0)
        ],
        vec![
            0,1,2
        ]
    );
    let expected_element= Element::new(
        0,
        Vector::new(d(0.),d(0.),d(0.)),
        Rotation::new(d(0.),d(0.),d(0.),d(1.0)),
        String::from("d4f28792-e1e9-4e31-bcee-740dbda61e20"),
        String::from("Plate"),
        Color::new(0,120,120,255),
        None,
        info
    );
    assert_eq!(String::from("1.0.0").eq(&result.schema_version), true);
    assert_eq!(result.meshes.len(), 1);
    assert_eq!(result.meshes[0].eq(&expected_mesh), true);
    assert_eq!(result.elements.len(), 1);
    assert_eq!(result.elements[0].eq(&expected_element), true);
    assert_eq!(file_info.eq(&result.info), true);
}

#[test]
fn test_partial_eq_true() {
    let a = get_file_with_triangle_blue_plate();
    let b = get_file_with_triangle_blue_plate();
    assert_eq!(a.eq(&b), true);
    assert_eq!(b.eq(&a), true);
}

#[test]
fn test_partial_eq_different_schema_version_false() {
    let a = get_file_with_triangle_blue_plate();

    let mut file_info = Info::new();
    file_info.insert(String::from("Author"), String::from("Jane Doe"));

    let mut info = Info::new();
    info.insert(String::from("Name"), String::from("Triangle"));

    let b = File::new(
        String::from("Different"),
        vec![
            Mesh::new(
                0,
                vec![
                    d(0.0),d(0.0),d(0.0),
                    d(10.0),d(0.0),d(0.0),
                    d(10.0),d(-15.0),d(0.0)
                ],
                vec![
                    0,1,2
                ]
            )
        ],
        vec![
            Element::new(
                0,
                Vector::new(d(0.),d(0.),d(0.)),
                Rotation::new(d(0.),d(0.),d(0.),d(1.0)),
                String::from("d4f28792-e1e9-4e31-bcee-740dbda61e20"),
                String::from("Plate"),
                Color::new(0,120,120,255),
                None,
                info
            )
        ],
        file_info
    );

    assert_eq!(a.eq(&b), false);
    assert_eq!(b.eq(&a), false);
}

#[test]
fn test_partial_eq_different_meshes_count_false() {
    let a = get_file_with_triangle_blue_plate();

    let mut file_info = Info::new();
    file_info.insert(String::from("Author"), String::from("Jane Doe"));

    let mut info = Info::new();
    info.insert(String::from("Name"), String::from("Triangle"));

    let b = File::new(
        String::from("1.0.0"),
        vec![
            Mesh::new(
                0,
                vec![
                    d(0.0),d(0.0),d(0.0),
                    d(10.0),d(0.0),d(0.0),
                    d(10.0),d(-15.0),d(0.0)
                ],
                vec![
                    0,1,2
                ],
            ),
            Mesh::new(
                1,
                vec![
                    d(0.0),d(0.0),d(0.0),
                    d(10.0),d(0.0),d(0.0),
                    d(10.0),d(-15.0),d(0.0)
                ],
                vec![
                    0,1,2
                ],
            )
        ],
        vec![
            Element::new(
                0,
                Vector::new(d(0.),d(0.),d(0.)),
                Rotation::new(d(0.),d(0.),d(0.),d(1.0)),
                String::from("d4f28792-e1e9-4e31-bcee-740dbda61e20"),
                String::from("Plate"),
                Color::new(0,120,120,255),
                None,
                info
            )
        ],
        file_info
    );

    assert_eq!(a.eq(&b), false);
    assert_eq!(b.eq(&a), false);
}

#[test]
fn test_partial_eq_different_mesh_false() {
    let a = get_file_with_triangle_blue_plate();

    let mut file_info = Info::new();
    file_info.insert(String::from("Author"), String::from("Jane Doe"));

    let mut info = Info::new();
    info.insert(String::from("Name"), String::from("Triangle"));

    let b = File::new(
        String::from("1.0.0"),
        vec![
            Mesh::new(
                0,
                vec![
                    d(0.0),d(0.0),d(0.0),
                    d(10.0),d(0.0),d(0.0),
                    d(10.0),d(-15.0),d(0.0)
                ],
                vec![
                    0,2,1 // Different
                ]
            )
        ],
        vec![
            Element::new(
                0,
                Vector::new(d(0.),d(0.),d(0.)),
                Rotation::new(d(0.),d(0.),d(0.),d(1.0)),
                String::from("d4f28792-e1e9-4e31-bcee-740dbda61e20"),
                String::from("Plate"),
                Color::new(0,120,120,255),
                None,
                info
            )
        ],
        file_info
    );

    assert_eq!(a.eq(&b), false);
    assert_eq!(b.eq(&a), false);
}

#[test]
fn test_partial_eq_different_elements_count_false() {
    let a = get_file_with_triangle_blue_plate();

    let mut file_info = Info::new();
    file_info.insert(String::from("Author"), String::from("Jane Doe"));

    let mut info = Info::new();
    info.insert(String::from("Name"), String::from("Triangle"));

    let b = File::new(
        String::from("1.0.0"),
        vec![
            Mesh::new(
                0,
                vec![
                    d(0.0),d(0.0),d(0.0),
                    d(10.0),d(0.0),d(0.0),
                    d(10.0),d(-15.0),d(0.0)
                ],
                vec![
                    0,1,2
                ]
            )
        ],
        vec![
            Element::new(
                0,
                Vector::new(d(0.),d(0.),d(0.)),
                Rotation::new(d(0.),d(0.),d(0.),d(1.0)),
                String::from("d4f28792-e1e9-4e31-bcee-740dbda61e20"),
                String::from("Plate"),
                Color::new(0,120,120,255),
                None,
                info.clone()
            ),
            Element::new(
                0,
                Vector::new(d(100.),d(0.),d(0.)),
                Rotation::new(d(0.),d(0.),d(0.),d(1.0)),
                String::from("882ccb70-9925-4a10-82af-07c6fa2be5e7"),
                String::from("Plate"),
                Color::new(0,120,120,255),
                None,
                info.clone()
            )
        ],
        file_info
    );

    assert_eq!(a.eq(&b), false);
    assert_eq!(b.eq(&a), false);
}

#[test]
fn test_partial_eq_different_element_false() {
    let a = get_file_with_triangle_blue_plate();

    let mut file_info = Info::new();
    file_info.insert(String::from("Author"), String::from("Jane Doe"));

    let mut info = Info::new();
    info.insert(String::from("Name"), String::from("Triangle"));

    let b = File::new(
        String::from("1.0.0"),
        vec![
            Mesh::new(
                0,
                vec![
                    d(0.0),d(0.0),d(0.0),
                    d(10.0),d(0.0),d(0.0),
                    d(10.0),d(-15.0),d(0.0)
                ],
                vec![
                    0,1,2
                ]
            )
        ],
        vec![
            Element::new(
                0,
                Vector::new(d(0.),d(0.),d(0.)),
                Rotation::new(d(0.),d(0.),d(0.),d(1.0)),
                String::from("d4f28792-e1e9-4e31-bcee-740dbda61e20"),
                String::from("Something else"), // Different
                Color::new(0,120,120,255),
                None,
                info
            )
        ],
        file_info
    );

    assert_eq!(a.eq(&b), false);
    assert_eq!(b.eq(&a), false);
}

#[test]
fn test_partial_eq_different_file_info_false() {
    let a = get_file_with_triangle_blue_plate();

    let mut file_info = Info::new();
    file_info.insert(String::from("Author"), String::from("John Doe")); // different

    let mut info = Info::new();
    info.insert(String::from("Name"), String::from("Triangle"));

    let b = File::new(
        String::from("1.0.0"),
        vec![
            Mesh::new(
                0,
                vec![
                    d(0.0),d(0.0),d(0.0),
                    d(10.0),d(0.0),d(0.0),
                    d(10.0),d(-15.0),d(0.0)
                ],
                vec![
                    0,1,2
                ]
            )
        ],
        vec![
            Element::new(
                0,
                Vector::new(d(0.),d(0.),d(0.)),
                Rotation::new(d(0.),d(0.),d(0.),d(1.0)),
                String::from("d4f28792-e1e9-4e31-bcee-740dbda61e20"),
                String::from("Plate"),
                Color::new(0,120,120,255),
                None,
                info
            )
        ],
        file_info
    );

    assert_eq!(a.eq(&b), false);
    assert_eq!(b.eq(&a), false);
}

#[test]
fn file_with_reversed_meshes_is_not_equal() {
    let first = Mesh::new(0, vec![d(0.0), d(0.0), d(0.0)], vec![0, 0, 0]);
    let second = Mesh::new(1, vec![d(1.0), d(0.0), d(0.0)], vec![0, 0, 0]);
    let a = File::new(
        String::from("1.0.0"),
        vec![first.clone(), second.clone()],
        vec![],
        Info::new(),
    );
    let b = File::new(String::from("1.0.0"), vec![second, first], vec![], Info::new());
    assert_eq!(a.eq(&b), false);
    assert_eq!(b.eq(&a), false);
    assert_eq!(a.eq(&a), true);
}

#[test]
fn file_with_reversed_elements_is_not_equal() {
    let a = get_file_with_triangle_blue_plate();
    let first = a.elements[0].clone();
    let mut second = a.elements[0].clone();
    second.guid = String::from("882ccb70-9925-4a10-82af-07c6fa2be5e7");
    let a = File::new(
        String::from("1.0.0"),
        a.meshes.clone(),
        vec![first.clone(), second.clone()],
        a.info.clone(),
    );
    let b = File::new(String::from("1.0.0"), a.meshes.clone(), vec![second, first], a.info.clone());
    assert_eq!(a.eq(&b), false);
    assert_eq!(b.eq(&a), false);
}

#[test]
fn file_info_is_compared_as_a_mapping() {
    let mut forward = Info::new();
    forward.insert(String::from("Author"), String::from("John Doe"));
    forward.insert(String::from("Date"), String::from("28.09.1999"));
    let mut backward = Info::new();
    backward.insert(String::from("Date"), String::from("28.09.1999"));
    backward.insert(String::from("Author"), String::from("John Doe"));

    let base = get_file_with_triangle_blue_plate();
    let a = File::new(String::from("1.0.0"), base.meshes.clone(), base.elements.clone(), forward);
    let b = File::new(String::from("1.0.0"), base.meshes.clone(), base.elements.clone(), backward);
    assert_eq!(a.eq(&b), true);
    assert_eq!(b.eq(&a), true);
}

#[test]
fn file_equality_is_reflexive_and_symmetric_on_samples() {
    let plate = get_file_with_triangle_blue_plate();
    let mut other = get_file_with_triangle_blue_plate();
    other.meshes[0].coordinates[3] = d(-0.0);
    let empty = File::new(String::new(), vec![], vec![], Info::new());
    let samples = [plate, other, empty];
    for a in &samples {
        assert!(a.eq(a));
        for b in &samples {
            assert_eq!(a.eq(b), b.eq(a));
        }
    }
}

#[test]
fn file_with_nan_is_not_equal_to_itself() {
    let mut file = get_file_with_triangle_blue_plate();
    assert!(file.is_finite());
    file.meshes[0].coordinates[0] = d(f64::NAN);
    assert!(!file.is_finite());
    assert_eq!(file.eq(&file), false);
}

#[test]
fn file_is_finite_looks_at_elements_too() {
    let mut file = get_file_with_triangle_blue_plate();
    file.elements[0].rotation.qw = d(f64::INFINITY);
    assert!(!file.is_finite());
    assert!(file.eq(&file));
}

#[test]
fn file_test_to_json() {
    let input = get_file_with_triangle_blue_plate();
    let input_serialized = input.to_json();
    assert_eq!(input_serialized.is_ok(), true);
    let input_serialized_string = to_text(&input_serialized.ok().unwrap());
    assert_eq!(input_serialized_string, "{\"schema_version\":\"1.0.0\",\"meshes\":[{\"mesh_id\":0,\"coordinates\":[0.0,0.0,0.0,10.0,0.0,0.0,10.0,-15.0,0.0],\"indices\":[0,1,2]}],\"elements\":[{\"mesh_id\":0,\"vector\":{\"x\":0.0,\"y\":0.0,\"z\":0.0},\"rotation\":{\"qx\":0.0,\"qy\":0.0,\"qz\":0.0,\"qw\":1.0},\"guid\":\"d4f28792-e1e9-4e31-bcee-740dbda61e20\",\"type\":\"Plate\",\"color\":{\"r\":0,\"g\":120,\"b\":120,\"a\":255},\"info\":{\"Name\":\"Triangle\"}}],\"info\":{\"Author\":\"Jane Doe\"}}");
}

#[test]
fn test_from_json() {
    let json = "{\"schema_version\":\"1.0.0\",\"meshes\":[{\"mesh_id\":0,\"coordinates\":[0.0,0.0,0.0,10.0,0.0,0.0,10.0,-15.0,0.0],\"indices\":[0,1,2]}],\"elements\":[{\"mesh_id\":0,\"vector\":{\"x\":0.0,\"y\":0.0,\"z\":0.0},\"rotation\":{\"qx\":0.0,\"qy\":0.0,\"qz\":0.0,\"qw\":1.0},\"guid\":\"d4f28792-e1e9-4e31-bcee-740dbda61e20\",\"type\":\"Plate\",\"color\":{\"r\":0,\"g\":120,\"b\":120,\"a\":255},\"info\":{\"Name\":\"Triangle\"}}],\"info\":{\"Author\":\"Jane Doe\"}}";
    let actual_result = File::decode(json);
    assert_eq!(actual_result.is_ok(), true);
    let actual = actual_result.ok().unwrap();
    let expected = get_file_with_triangle_blue_plate();
    assert_eq!(expected.eq(&actual), true);
}

#[test]
fn test_create_and_read_pyramid() {
    let mesh = Mesh::new(
        0,
        vec![
            // Base
            d(0.0),d(0.0),d(0.0),
            d(10.0),d(0.0),d(0.0),
            d(10.0),d(10.0),d(0.0),
            d(0.0),d(10.0),d(0.0),

            // Top
            d(5.0),d(5.0),d(4.0)
        ],
        vec![
            // Base faces
            0,1,2,
            0,2,3,

            // Side faces
            0,1,4,
            1,2,4,
            2,3,4,
            3,0,4
        ]
    );

    let mut info = Info::new();
    info.insert(String::from("Name"), String::from("Pyramid"));

    let mut file_info = Info::new();
    file_info.insert(String::from("Author"), String::from("John Doe"));
    file_info.insert(String::from("Date"), String::from("28.09.1999"));

    let element = Element::new(
        0,
        Vector::new(d(0.),d(0.),d(0.)),
        Rotation::new(d(0.), d(0.), d(0.), d(1.)),
        String::from("76e051c1-1bd7-44fc-8e2e-db2b64055068"),
        String::from("Structure"),
        Color::new(255,255,0,255),
        None,
        info,
    );

    let file: File = File::new(String::from("1.0.0"),
                         vec![mesh],
                         vec![element],
                         file_info);

    let file_serialized = file.to_json();
    assert_eq!(file_serialized.is_ok(), true);

    let file_serialized_string = to_text(&file_serialized.ok().unwrap());

    let read_file_unpacked: File = File::decode(&file_serialized_string).unwrap();

    assert_eq!(file.eq(&read_file_unpacked), true);
    assert_eq!(file.validate(), Ok(()));
}

#[test]
fn plate_is_written_on_one_line_and_read_back_equal() {
    let file = get_file_with_triangle_blue_plate();
    let text = to_text(&file.to_json().unwrap());
    assert!(!text.contains('\n'));
    let keys = ["\"schema_version\":", "\"meshes\":", "\"elements\":", "\"info\":{\"Author\""];
    let mut from = 0;
    for key in keys {
        let at = text[from..].find(key).expect("key in order");
        from += at + key.len();
    }
    let back = File::decode(&text).unwrap();
    assert!(back.eq(&file));
    assert!(file.eq(&back));
    assert_eq!(to_text(&back.to_json().unwrap()), text);
    let tree = File::from_json(&file.to_json().unwrap()).unwrap();
    assert!(tree.eq(&file));
}

#[test]
fn empty_info_of_a_file_is_written_as_an_empty_object() {
    let file = File::new(String::from("1.0.0"), vec![], vec![], Info::new());
    assert_eq!(
        to_text(&file.to_json().unwrap()),
        "{\"schema_version\":\"1.0.0\",\"meshes\":[],\"elements\":[],\"info\":{}}"
    );
    let back = File::decode("{\"schema_version\":\"1.0.0\",\"meshes\":[],\"elements\":[],\"info\":{}}");
    assert!(back.unwrap().eq(&file));
}

#[test]
fn round_trip_keeps_every_bit_of_every_number() {
    let numbers = [0.0, -0.0, 0.1, 0.2, 0.1 + 0.2, 1e300, -1e-300, 5e-324, f64::MAX, f64::MIN, 1.0 / 3.0];
    let mesh = Mesh::new(7, numbers.iter().map(|x| d(*x)).collect(), vec![0, 1, 2]);
    let file = File::new(String::from("1.0.0"), vec![mesh], vec![], Info::new());
    let tree = File::from_json(&file.to_json().unwrap()).unwrap();
    for (i, x) in numbers.iter().enumerate() {
        assert_eq!(tree.meshes[0].coordinates[i].to_bits(), x.to_bits());
    }
    let back = File::decode(&to_text(&file.to_json().unwrap())).unwrap();
    assert!(back.eq(&file));
}

#[test]
fn text_and_keys_with_escapes_are_read_back() {
    let mut info = Info::new();
    info.insert(String::from("quote \" and \\ slash"), String::from("line\nbreak\ttab \u{1F600} \u{0}"));
    let file = File::new(String::from("véрсия"), vec![], vec![], info);
    let back = File::decode(&to_text(&file.to_json().unwrap())).unwrap();
    assert!(back.eq(&file));
    assert_eq!(back.schema_version, "véрсия");
}

#[test]
fn file_with_a_number_that_is_not_finite_has_no_json() {
    let mut file = get_file_with_triangle_blue_plate();
    file.meshes[0].coordinates[4] = d(f64::NEG_INFINITY);
    assert_eq!(file.to_json().err(), Some(EncodeError::NonFinite));
    let mut file = get_file_with_triangle_blue_plate();
    file.elements[0].vector.z = d(f64::NAN);
    assert_eq!(file.to_json().err(), Some(EncodeError::NonFinite));
}

#[test]
fn decode_tells_text_that_is_not_json_from_json_of_another_shape() {
    for text in ["", "{", "{\"schema_version\":}", "[1,2,]", "{\"a\":1} x", "nul", "{\"a\":1e999}"] {
        assert!(matches!(File::decode(text), Err(DecodeError::Syntax(_))));
    }
    let shapes = [
        ("{}", SchemaError::Missing),
        ("[]", SchemaError::Mistyped),
        ("null", SchemaError::Mistyped),
        ("\"1.0.0\"", SchemaError::Mistyped),
        ("{\"schema_version\":1,\"meshes\":[],\"elements\":[],\"info\":{}}", SchemaError::Mistyped),
        ("{\"schema_version\":\"1\",\"meshes\":{},\"elements\":[],\"info\":{}}", SchemaError::Mistyped),
        ("{\"schema_version\":\"1\",\"meshes\":[],\"info\":{}}", SchemaError::Missing),
        ("{\"schema_version\":\"1\",\"meshes\":[],\"elements\":[7],\"info\":{}}", SchemaError::Mistyped),
        ("{\"schema_version\":\"1\",\"meshes\":[{}],\"elements\":[],\"info\":{}}", SchemaError::Missing),
        ("{\"schema_version\":\"1\",\"meshes\":[],\"elements\":[],\"info\":null}", SchemaError::Mistyped),
        (
            "{\"schema_version\":\"1\",\"meshes\":[{\"mesh_id\":3000000000,\"coordinates\":[],\"indices\":[]}],\"elements\":[],\"info\":{}}",
            SchemaError::OutOfRange,
        ),
        (
            "{\"schema_version\":\"1\",\"meshes\":[{\"mesh_id\":1,\"coordinates\":[\"0\"],\"indices\":[]}],\"elements\":[],\"info\":{}}",
            SchemaError::Mistyped,
        ),
        (
            "{\"schema_version\":\"1\",\"meshes\":[{\"mesh_id\":1,\"coordinates\":[],\"indices\":[0,1.5]}],\"elements\":[],\"info\":{}}",
            SchemaError::Mistyped,
        ),
    ];
    for (text, expected) in shapes {
        match File::decode(text) {
            Err(DecodeError::Schema(e)) => assert_eq!(e, expected),
            _ => panic!("{}", text),
        }
    }
}

#[test]
fn decode_passes_over_other_keys_and_white_space() {
    let text = " { \"generator\" : [1, {\"a\": null}], \"info\" : { } ,\n \"elements\" : [ ], \"meshes\" : [ { \"indices\" : [0, 0, 0], \"coordinates\" : [1, 2.5, -3e0], \"mesh_id\" : -7, \"name\" : \"m\" } ], \"schema_version\" : \"1.1.0\" } ";
    let file = File::decode(text).unwrap();
    assert_eq!(file.schema_version, "1.1.0");
    assert_eq!(file.meshes.len(), 1);
    assert_eq!(file.meshes[0].mesh_id, -7);
    assert_eq!(file.meshes[0].indices, vec![0, 0, 0]);
    let coordinates: Vec<u64> = file.meshes[0].coordinates.iter().map(|x| x.to_bits()).collect();
    assert_eq!(coordinates, vec![1.0f64.to_bits(), 2.5f64.to_bits(), (-3.0f64).to_bits()]);
    assert!(file.elements.is_empty());
    assert!(file.info.is_empty());
}

fn plate_with_face_colors(face_colors: Option<Vec<i32>>) -> File {
    let mut file = get_file_with_triangle_blue_plate();
    file.elements[0].face_colors = face_colors;
    file
}

#[test]
fn face_colors_of_46_numbers_are_read_and_then_found_by_validate() {
    let colors: Vec<String> = (0..46).map(|i| i.to_string()).collect();
    let text = "{\"schema_version\":\"1.0.0\",\"meshes\":[{\"mesh_id\":0,\"coordinates\":[0.0,0.0,0.0,10.0,0.0,0.0,10.0,-15.0,0.0],\"indices\":[0,1,2]}],\"elements\":[{\"mesh_id\":0,\"vector\":{\"x\":0.0,\"y\":0.0,\"z\":0.0},\"rotation\":{\"qx\":0.0,\"qy\":0.0,\"qz\":0.0,\"qw\":1.0},\"guid\":\"d4f28792-e1e9-4e31-bcee-740dbda61e20\",\"type\":\"Plate\",\"color\":{\"r\":0,\"g\":120,\"b\":120,\"a\":255},\"info\":{\"Name\":\"Triangle\"}}],\"info\":{\"Author\":\"Jane Doe\"}}".replace(
        "\"info\":{\"Name\":\"Triangle\"}",
        &format!("\"face_colors\":[{}],\"info\":{{\"Name\":\"Triangle\"}}", colors.join(",")),
    );
    let file = File::decode(&text).unwrap();
    assert_eq!(file.elements[0].face_colors.as_ref().unwrap().len(), 46);
    assert_eq!(file.validate(), Err(ValidationError::FaceColorLength { element: 0 }));
}

#[test]
fn validate_accepts_consistent_files() {
    assert_eq!(get_file_with_triangle_blue_plate().validate(), Ok(()));
    assert_eq!(plate_with_face_colors(Some(vec![255, 0, 0, 255])).validate(), Ok(()));
    let empty = File::new(String::from("1.0.0"), vec![], vec![], Info::new());
    assert_eq!(empty.validate(), Ok(()));
}

#[test]
fn validate_reports_each_defect_of_a_mesh() {
    let mut file = get_file_with_triangle_blue_plate();
    file.meshes[0].coordinates.push(d(1.0));
    assert_eq!(file.validate(), Err(ValidationError::CoordinateCount { mesh: 0 }));

    let mut file = get_file_with_triangle_blue_plate();
    file.meshes[0].indices.push(0);
    assert_eq!(file.validate(), Err(ValidationError::IndexCount { mesh: 0 }));

    let mut file = get_file_with_triangle_blue_plate();
    file.meshes[0].indices[2] = 3;
    assert_eq!(file.validate(), Err(ValidationError::IndexOutOfRange { mesh: 0 }));

    let mut file = get_file_with_triangle_blue_plate();
    file.meshes[0].indices[0] = -1;
    assert_eq!(file.validate(), Err(ValidationError::IndexOutOfRange { mesh: 0 }));

    let mut file = get_file_with_triangle_blue_plate();
    let copy = file.meshes[0].clone();
    file.meshes.push(Mesh::new(1, vec![], vec![]));
    file.meshes.push(copy);
    assert_eq!(file.validate(), Err(ValidationError::RepeatedMeshId { mesh: 2 }));
}

#[test]
fn validate_reports_each_defect_of_an_element() {
    let mut file = get_file_with_triangle_blue_plate();
    file.elements[0].mesh_id = 1;
    assert_eq!(file.validate(), Err(ValidationError::UnknownMesh { element: 0 }));

    let file = plate_with_face_colors(Some(vec![255, 0, 0]));
    assert_eq!(file.validate(), Err(ValidationError::FaceColorLength { element: 0 }));

    let file = plate_with_face_colors(Some(vec![255, 0, 0, 255, 0, 255, 0, 255]));
    assert_eq!(file.validate(), Err(ValidationError::FaceColorCount { element: 0 }));

    let file = plate_with_face_colors(Some(vec![]));
    assert_eq!(file.validate(), Err(ValidationError::FaceColorCount { element: 0 }));
}

#[test]
fn validate_reports_the_first_defect() {
    let mut file = plate_with_face_colors(Some(vec![1]));
    file.meshes.push(Mesh::new(5, vec![d(0.0)], vec![9]));
    assert_eq!(file.validate(), Err(ValidationError::CoordinateCount { mesh: 1 }));
    file.meshes[0].indices.push(7);
    assert_eq!(file.validate(), Err(ValidationError::IndexCount { mesh: 0 }));

    let mut file = get_file_with_triangle_blue_plate();
    let mut second = file.elements[0].clone();
    second.mesh_id = 9;
    file.elements.push(second);
    file.elements.push(file.elements[0].clone());
    file.elements[2].face_colors = Some(vec![1, 2, 3]);
    assert_eq!(file.validate(), Err(ValidationError::UnknownMesh { element: 1 }));
}

#[test]
fn validate_matches_elements_to_meshes_by_key_not_by_position() {
    let mut file = get_file_with_triangle_blue_plate();
    file.meshes[0].mesh_id = 40;
    file.meshes.insert(0, Mesh::new(-3, vec![], vec![]));
    file.elements[0].mesh_id = 40;
    file.elements[0].face_colors = Some(vec![1, 2, 3, 4]);
    assert_eq!(file.validate(), Ok(()));
    file.elements[0].mesh_id = -3;
    assert_eq!(file.validate(), Err(ValidationError::FaceColorCount { element: 0 }));
}

use opengl_rust::controls::{
    bearing_char, handle_input, key_axis, menu_toggle, CameraCommand, ControlKeys, LightType,
    MovementDirection,
};
use opengl_rust::model::{process_node, ModelNode};
use opengl_rust::mesh::{initialize_indices, face_indices, quad_indices};
use opengl_rust::polyhedron::Polyhedron;
use opengl_rust::tessellation::TessellationParameters;
use opengl_rust::texture::{
    directory_of, directory_suffix_of, texture_uniform_names, Texture, TextureLibrary, TextureType,
};
use std::cell::Cell;
use std::collections::HashMap;

#[test]
fn texture_type_names() {
    assert_eq!(TextureType::Diffuse.name(), "texture_diffuse");
    assert_eq!(TextureType::Specular.name(), "texture_specular");
}

fn texture(texture_type: TextureType) -> Texture {
    Texture { id: 0, texture_type, path: String::new() }
}

#[test]
fn uniform_names_count_each_role() {
    let textures = vec![
        texture(TextureType::Diffuse),
        texture(TextureType::Specular),
        texture(TextureType::Diffuse),
        texture(TextureType::Diffuse),
    ];
    let mut many = Vec::new();
    for _ in 0..12 {
        many.push(texture(TextureType::Specular));
    }
    assert_eq!(
        texture_uniform_names(&textures),
        vec![
            "material.texture_diffuse1",
            "material.texture_specular1",
            "material.texture_diffuse2",
            "material.texture_diffuse3",
        ]
    );
    assert_eq!(texture_uniform_names(&many)[11], "material.texture_specular12");
}

#[test]
fn model_directories() {
    assert_eq!(directory_of("assets/models/backpack.obj"), "assets/models");
    assert_eq!(directory_of("backpack.obj"), "backpack.obj");
    assert_eq!(directory_of("/x"), "");
    assert_eq!(directory_suffix_of("assets/models/backpack.obj"), "/backpack.obj");
    assert_eq!(directory_suffix_of("backpack.obj"), "backpack.obj");
}

#[test]
fn texture_files_are_loaded_once() {
    let mut library = TextureLibrary::new(String::from("models"));
    let loads = Cell::new(0u32);
    let load = |path: &String| {
        loads.set(loads.get() + 1);
        100 + path.len() as u32 + loads.get()
    };
    let names = vec![String::from("a.png"), String::from("b.png"), String::from("a.png")];
    let first = library.load_material_textures(&names, TextureType::Diffuse, &load);
    assert_eq!(loads.get(), 2);
    assert_eq!(first[0].path, "models/a.png");
    assert_eq!(first[2].id, first[0].id);
    assert_eq!(first[2].path, first[0].path);
    assert_eq!(first[1].texture_type, TextureType::Diffuse);
    assert_eq!(library.textures_loaded.len(), 3);

    let again = library.load_material_textures(&names, TextureType::Specular, &load);
    assert_eq!(loads.get(), 2);
    // Cached textures keep the role they were first loaded with.
    assert_eq!(again[1].texture_type, TextureType::Diffuse);
    assert_eq!(library.textures_loaded.len(), 6);

    let none = library.load_material_textures(&names, TextureType::Unknown, &load);
    assert!(none.is_empty());
    assert_eq!(library.textures_loaded.len(), 6);
}

#[test]
fn tessellation_levels() {
    let mut params = TessellationParameters::uniform(1);
    assert_eq!(params.average_level(), 1);
    params.outer[4] = 7;
    assert_eq!(params.average_level(), 2);
    params.set_all_levels(9);
    assert_eq!(params.average_level(), 9);
    assert_eq!(params.outer[1], 1);
    assert_eq!(params.inner[4], 9);
    let zero = TessellationParameters::default();
    assert_eq!(zero.average_level(), 0);
}

#[test]
fn menu_toggle_flips_on_click() {
    let mut shown = false;
    assert!(menu_toggle(true, &mut shown));
    assert!(shown);
    assert!(menu_toggle(false, &mut shown));
    assert!(!menu_toggle(true, &mut shown));
}

#[test]
fn key_axis_directions() {
    assert_eq!(key_axis(true, false), 1);
    assert_eq!(key_axis(false, true), -1);
    assert_eq!(key_axis(true, true), 0);
    assert_eq!(key_axis(false, false), 0);
}

#[test]
fn compass_sectors() {
    let names: Vec<&str> = (0..8).map(bearing_char).collect();
    assert_eq!(names, vec!["N", "NE", "E", "SE", "S", "SW", "W", "NW"]);
}

#[test]
fn light_type_names() {
    assert_eq!(LightType::Directional.name(), "Directional");
    assert_eq!(LightType::Point.name(), "Point");
    assert_eq!(LightType::Spot.name(), "Spot");
    assert_ne!(MovementDirection::FORWARD, MovementDirection::BACKWARD);
}

#[test]
fn camera_controller_commands() {
    let mut keys = ControlKeys {
        w: false, s: false, a: false, d: false, space: false, left_control: false,
        up_arrow: false, down_arrow: false, right_arrow: false, left_arrow: false,
        q: false, e: false,
    };
    assert!(handle_input(&keys).is_empty());
    keys.a = true;
    keys.w = true;
    keys.e = true;
    assert_eq!(
        handle_input(&keys),
        vec![CameraCommand::MoveForward, CameraCommand::MoveRight, CameraCommand::RollCw]
    );
}

#[test]
fn cube_quads() {
    assert_eq!(
        initialize_indices(),
        vec![
            0, 1, 2, 0, 2, 3, 4, 5, 6, 4, 6, 7, 8, 9, 10, 8, 10, 11, 12, 13, 14, 12, 14, 15,
            16, 17, 18, 16, 18, 19, 20, 21, 22, 20, 22, 23,
        ]
    );
    assert!(quad_indices(0).is_empty());
}

#[test]
fn mesh_faces_flatten_in_order() {
    let faces = vec![vec![0u32, 1, 2], vec![], vec![2, 3, 0, 4]];
    assert_eq!(face_indices(&faces), vec![0, 1, 2, 2, 3, 0, 4]);
}

/// Every directed edge appears once and its reverse appears once: a closed,
/// consistently wound surface.
fn closed_and_consistent(p: &Polyhedron) -> bool {
    let mut edges: HashMap<(usize, usize), usize> = HashMap::new();
    for &(a, b, c) in p.triangles() {
        for e in [(a, b), (b, c), (c, a)] {
            *edges.entry(e).or_insert(0) += 1;
        }
    }
    edges.iter().all(|(&(a, b), &n)| n == 1 && edges.get(&(b, a)) == Some(&1))
}

#[test]
fn icosahedron_is_closed() {
    let ico = Polyhedron::regular_icosahedron();
    assert_eq!(ico.vertex_count(), 12);
    assert_eq!(ico.triangles().len(), 20);
    assert!(closed_and_consistent(&ico));
    // Every vertex touches five faces.
    for v in 0..12 {
        let n = ico.triangles().iter().filter(|t| t.0 == v || t.1 == v || t.2 == v).count();
        assert_eq!(n, 5);
    }
}

#[test]
fn cube_is_closed() {
    let cube = Polyhedron::cube();
    assert_eq!(cube.vertex_count(), 8);
    assert_eq!(cube.triangles().len(), 12);
    assert_eq!(cube.triangles()[0], (0, 1, 2));
    assert!(closed_and_consistent(&cube));
}

#[test]
fn model_meshes_in_depth_first_order() {
    let leaf = |meshes: Vec<u32>| ModelNode { meshes, children: vec![] };
    let root = ModelNode {
        meshes: vec![0],
        children: vec![
            ModelNode { meshes: vec![3, 1], children: vec![leaf(vec![4])] },
            leaf(vec![]),
            leaf(vec![2]),
        ],
    };
    assert_eq!(process_node(&root), vec![0, 3, 1, 4, 2]);
}

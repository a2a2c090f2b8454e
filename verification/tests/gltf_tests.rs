use tower_tilings::{f32_bits, Gltf, Material, TowerTiling, Vec3};

#[test]
fn f32_encoding_matches_hardware() {
    let samples: Vec<i64> = vec![
        0, 1, -1, 2, 125000, 100000, 333333, 500000, 866025, 1000000, -1000000, 1500000,
        -333333, 200000, 999999999, -999999999, 123456789, 7, 1048576,
    ];
    for v in samples {
        let expected = ((v as f64) / 1000000.0) as f32;
        assert_eq!(f32_bits(v), expected.to_bits(), "encoding {}", v);
    }
}

#[test]
fn f32_encoding_known_patterns() {
    assert_eq!(f32_bits(0), 0);
    assert_eq!(f32_bits(1000000), 0x3F800000); // 1.0
    assert_eq!(f32_bits(-1000000), 0xBF800000); // -1.0
    assert_eq!(f32_bits(500000), 0x3F000000); // 0.5
    assert_eq!(f32_bits(125000), 0x3E000000); // 0.125
    assert_eq!(f32_bits(100000), 0x3DCCCCCD); // nearest float to 0.1
}

#[test]
fn material_json_text() {
    let m = Material {
        base_color: Vec3 { x: 1000000, y: 500000, z: 0 },
        metallic: 100000,
        roughness: 900000,
    };
    let mut out: Vec<u8> = Vec::new();
    m.to_json(&mut out);
    let expected = "{\"pbrMetallicRoughness\":{\"baseColorFactor\":[1.000000,0.500000,0.000000,1.000000],\"metallicFactor\":0.100000,\"roughnessFactor\":0.900000}}";
    assert_eq!(String::from_utf8(out).unwrap(), expected);
}

#[test]
fn padding_lengths() {
    assert_eq!(Gltf::get_padding_length(0), 0);
    assert_eq!(Gltf::get_padding_length(1), 3);
    assert_eq!(Gltf::get_padding_length(2), 2);
    assert_eq!(Gltf::get_padding_length(3), 1);
    assert_eq!(Gltf::get_padding_length(4), 0);
    assert_eq!(Gltf::get_padding_length(5), 3);
}

fn one_tower() -> TowerTiling {
    let mut towers = TowerTiling::new();
    let base = vec![
        Vec3 { x: 0, y: 0, z: 0 },
        Vec3 { x: 1000000, y: 0, z: 0 },
        Vec3 { x: 0, y: 1000000, z: 0 },
    ];
    let profile: Vec<(i32, i32)> = Vec::new();
    towers.add_tower(&base, &profile, 0).unwrap();
    towers
}

fn read_le4(bytes: &[u8], at: usize) -> u32 {
    (bytes[at] as u32) | ((bytes[at + 1] as u32) << 8) | ((bytes[at + 2] as u32) << 16)
        | ((bytes[at + 3] as u32) << 24)
}

#[test]
fn glb_container_layout() {
    // The declared JSON chunk length is 4-byte aligned and matches the
    // padded text; the binary chunk length equals the packed buffer; the
    // header's total equals 12 + 8 + json + 8 + binary.
    let towers = one_tower();
    let materials = vec![Material {
        base_color: Vec3 { x: 800000, y: 700000, z: 600000 },
        metallic: 0,
        roughness: 1000000,
    }];
    let translations = vec![Vec3 { x: 0, y: 0, z: 0 }];
    let gltf = towers.build_gltf(materials, &translations).unwrap();
    let bytes = gltf.to_glb_bytes(2026).unwrap();

    assert_eq!(&bytes[0..4], b"glTF");
    assert_eq!(read_le4(&bytes, 4), 2);
    let total = read_le4(&bytes, 8) as usize;
    assert_eq!(total, bytes.len());

    let json_len = read_le4(&bytes, 12) as usize;
    assert_eq!(&bytes[16..20], b"JSON");
    assert_eq!(json_len % 4, 0);

    let bin_header = 20 + json_len;
    let bin_len = read_le4(&bytes, bin_header) as usize;
    assert_eq!(&bytes[bin_header + 4..bin_header + 8], b"BIN\0");
    assert_eq!(bin_len % 4, 0);
    assert_eq!(total, 12 + 8 + json_len + 8 + bin_len);
    assert_eq!(bytes.len(), bin_header + 8 + bin_len);

    // the JSON text is valid JSON, space padded
    let json_text = &bytes[20..20 + json_len];
    let parsed: serde_json::Value = serde_json::from_slice(json_text).unwrap();
    assert_eq!(parsed["asset"]["version"], "2.0");
    assert_eq!(parsed["asset"]["copyright"], "(c) 2026");
    assert_eq!(parsed["scene"], 0);
    assert_eq!(parsed["buffers"][0]["byteLength"].as_u64().unwrap() as usize, bin_len);

    // the declared buffer views tile the binary chunk exactly
    let views = parsed["bufferViews"].as_array().unwrap();
    let mut offset = 0u64;
    for view in views {
        assert_eq!(view["byteOffset"].as_u64().unwrap(), offset);
        assert_eq!(view["buffer"], 0);
        offset += view["byteLength"].as_u64().unwrap();
    }
    assert_eq!(offset as usize, bin_len);

    // one primitive, with its three accessors
    let prims = parsed["meshes"][0]["primitives"].as_array().unwrap();
    assert_eq!(prims.len(), 1);
    let accessors = parsed["accessors"].as_array().unwrap();
    // instance translations, then position, normal and index accessors
    assert_eq!(accessors.len(), 4);
    assert_eq!(accessors[1]["type"], "VEC3");
    assert_eq!(accessors[1]["componentType"], 5126);
    assert_eq!(accessors[3]["type"], "SCALAR");
    assert_eq!(accessors[3]["componentType"], 5125);
    // 21 corners and 27 indices for the single tower
    assert_eq!(accessors[1]["count"], 21);
    assert_eq!(accessors[3]["count"], 27);
    // position bounds: the tower spans one unit in x and y, a fifth in z
    assert_eq!(accessors[1]["min"][0], 0.0);
    assert_eq!(accessors[1]["max"][0], 1.0);
    assert_eq!(accessors[1]["max"][2], 0.2);

    // the node carries the instancing extension
    let node = &parsed["nodes"][0];
    assert_eq!(node["mesh"], 0);
    assert_eq!(
        node["extensions"]["EXT_mesh_gpu_instancing"]["attributes"]["TRANSLATION"],
        0,
    );

    // the packed positions start with the bottom cap, floats at z zero
    let bin = &bytes[bin_header + 8..];
    let first_float = f32::from_bits(read_le4(bin, 0));
    assert!(first_float.abs() < 1.0e-6 || first_float == 0.0);
}

#[test]
fn after_offset_adds_up() {
    let towers = one_tower();
    let gltf = towers.build_gltf(Vec::new(), &Vec::new()).unwrap();
    let mut expected = 0usize;
    for view in &gltf.buffer_views {
        assert_eq!(view.byte_offset, expected);
        expected = view.after_offset();
    }
    assert_eq!(expected, gltf.buffer_data.len());
}

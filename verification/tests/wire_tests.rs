use ui_instances::encode::RectData;
use ui_instances::registry::RenderResources;
use ui_instances::wire::serialize_rects;

#[test]
fn record_layout_is_packed_little_endian() {
    let rect = RectData {
        position_x: 0x04030201,
        position_y: 0x08070605,
        size_x: 0x0c0b0a09,
        size_y: 0x100f0e0d,
        color_r: 0x14131211,
        color_g: 0x18171615,
        color_b: 0x1c1b1a19,
        color_a: 0x201f1e1d,
        z_index: 0x24232221,
    };
    let bytes = serialize_rects(&vec![rect]);
    assert_eq!(bytes.len(), 36);
    let expected: Vec<u8> = (1..=36).collect();
    assert_eq!(bytes, expected);
}

#[test]
fn buffer_is_records_back_to_back() {
    let a = RectData {
        position_x: 1.0f32.to_bits(),
        position_y: 2.0f32.to_bits(),
        size_x: 3.0f32.to_bits(),
        size_y: 4.0f32.to_bits(),
        color_r: 0.25f32.to_bits(),
        color_g: 0.5f32.to_bits(),
        color_b: 0.75f32.to_bits(),
        color_a: 1.0f32.to_bits(),
        z_index: 0.9999f32.to_bits(),
    };
    let mut b = a;
    b.z_index = 0.9998f32.to_bits();
    let bytes = serialize_rects(&vec![a, b]);
    assert_eq!(bytes.len(), 72);
    assert_eq!(&bytes[0..4], &1.0f32.to_bits().to_le_bytes());
    assert_eq!(&bytes[32..36], &0.9999f32.to_bits().to_le_bytes());
    assert_eq!(&bytes[36..40], &1.0f32.to_bits().to_le_bytes());
    assert_eq!(&bytes[68..72], &0.9998f32.to_bits().to_le_bytes());
}

#[test]
fn empty_record_list_serializes_to_nothing() {
    let none: Vec<RectData> = Vec::new();
    assert_eq!(serialize_rects(&none).len(), 0);
}

#[test]
fn registry_last_writer_wins() {
    let mut resources = RenderResources::new();
    resources.set_named_resource("ui_instances".to_string(), 11);
    resources.set_named_resource("camera".to_string(), 5);
    resources.set_named_resource("ui_instances".to_string(), 12);
    assert_eq!(resources.get_named_resource(&"ui_instances".to_string()), Some(12));
    assert_eq!(resources.get_named_resource(&"camera".to_string()), Some(5));
    assert_eq!(resources.get_named_resource(&"missing".to_string()), None);
}

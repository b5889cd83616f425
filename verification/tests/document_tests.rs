use panim_loader::errors::Error;
use panim_loader::{Animation, PropertiesAnimation};

fn push_u32_le(out: &mut Vec<u8>, v: u32) {
    out.extend_from_slice(&v.to_le_bytes());
}

fn push_f32_le(out: &mut Vec<u8>, v: f32) {
    out.extend_from_slice(&v.to_le_bytes());
}

fn push_record(out: &mut Vec<u8>, object: &str, property: &str, start: u32, end: u32, vals: &[f32]) {
    out.extend_from_slice(object.as_bytes());
    out.push(0);
    out.extend_from_slice(property.as_bytes());
    out.push(0);
    push_u32_le(out, start);
    push_u32_le(out, end);
    out.push(0);
    out.extend_from_slice(&[0u8; 32]);
    for v in vals {
        push_f32_le(out, *v);
    }
}

/// Twenty-one samples rising from 0.0 to 1.0, one per frame in [80, 100].
fn rising_floats() -> Vec<f32> {
    vec![
        0.0,
        0.007250005,
        0.028000012,
        0.060750026,
        0.10400003,
        0.15625003,
        0.21600005,
        0.28175005,
        0.352,
        0.42525005,
        0.5,
        0.57475,
        0.648,
        0.71825,
        0.7839999,
        0.84374994,
        0.896,
        0.9392501,
        0.972,
        0.99275005,
        1.0,
    ]
}

fn single_anim() -> Vec<u8> {
    let mut out = Vec::new();
    push_u32_le(&mut out, 2048);
    push_f32_le(&mut out, 24.0);
    push_record(&mut out, "Cube", "opacity", 80, 100, &rising_floats());
    out
}

fn sample(a: &Animation, frame: u32) -> f32 {
    f32::from_bits(a.get_value_at_exact_frame(frame))
}

/// Linear interpolation between the two integer frames around `frame`,
/// computed the way a playback runtime does it over the decoded samples.
fn interpolate(a: &Animation, frame: f32) -> f32 {
    let lower = frame.floor();
    let fraction = frame - lower;
    let lower_frame = lower as u32;
    let lower_value = sample(a, lower_frame);
    let upper_value = sample(a, lower_frame + 1);
    lower_value + (upper_value - lower_value) * fraction
}

#[test]
fn end_to_end_single_animation() {
    let bytes = single_anim();
    let doc = PropertiesAnimation::from_bytes(&bytes).unwrap();
    let expected = PropertiesAnimation {
        version: (0, 2, 0),
        fps_bits: 24.0f32.to_bits(),
        animations: vec![Animation {
            object_name: "Cube".to_string(),
            property_name: "opacity".to_string(),
            frame_start: 80,
            frame_end: 100,
            typ: 0,
            frame_values: rising_floats().iter().map(|v| v.to_bits()).collect(),
        }],
    };
    assert_eq!(doc, expected);

    let animation = &doc.animations[0];
    assert_eq!(sample(animation, 10), 0.0);
    assert_eq!(sample(animation, 200), 1.0);
    assert_eq!(sample(animation, 90), 0.5);
    assert_eq!(interpolate(animation, 85.5), 0.18612504);
}

#[test]
fn interpolation_stays_between_bounding_samples() {
    let bytes = single_anim();
    let doc = PropertiesAnimation::from_bytes(&bytes).unwrap();
    let animation = &doc.animations[0];
    let lower = sample(animation, 85);
    let upper = sample(animation, 86);
    let result = interpolate(animation, 85.5);
    assert!(lower.min(upper) <= result);
    assert!(result <= lower.max(upper));
}

#[test]
fn decode_returns_identical_documents_for_identical_bytes() {
    let bytes = single_anim();
    let first = PropertiesAnimation::from_bytes(&bytes).unwrap();
    let second = PropertiesAnimation::from_bytes(&bytes).unwrap();
    assert_eq!(first, second);
}

#[test]
fn preamble_only_decodes_to_empty_document() {
    let mut bytes = Vec::new();
    push_u32_le(&mut bytes, 2048);
    push_f32_le(&mut bytes, 24.0);
    let doc = PropertiesAnimation::from_bytes(&bytes).unwrap();
    assert_eq!(doc.version, (0, 2, 0));
    assert_eq!(doc.fps_bits, 24.0f32.to_bits());
    assert!(doc.animations.is_empty());
}

#[test]
fn sampling_clamps_below_and_above() {
    let animation = Animation {
        object_name: "Cube".to_string(),
        property_name: "opacity".to_string(),
        frame_start: 10,
        frame_end: 12,
        typ: 0,
        frame_values: vec![1.0f32.to_bits(), 2.0f32.to_bits(), 3.0f32.to_bits()],
    };
    assert_eq!(sample(&animation, 0), 1.0);
    assert_eq!(sample(&animation, 10), 1.0);
    assert_eq!(sample(&animation, 11), 2.0);
    assert_eq!(sample(&animation, 12), 3.0);
    assert_eq!(sample(&animation, 4_000_000_000), 3.0);
}

#[test]
fn truncation_error_reports_hex_preview() {
    let mut bytes = Vec::new();
    push_u32_le(&mut bytes, 2048);
    push_f32_le(&mut bytes, 24.0);
    bytes.extend_from_slice(&[0xDE, 0xAD, 0xBE, 0xEF]);
    let result = PropertiesAnimation::from_bytes(&bytes);
    match result {
        Err(e @ Error::TruncatedInput { .. }) => {
            assert_eq!(e.hex_preview(), "deadbeef");
        },
        other => panic!("expected TruncatedInput, got {:?}", other),
    }
}

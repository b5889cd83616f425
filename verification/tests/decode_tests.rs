use panim_loader::errors::Error;
use panim_loader::parser::{
    animation, animation_header, animation_values, props_animation, zero_term_str, Animation,
    AnimationHeader, AnimationValues, PropsAnimation,
};

fn push_u32_le(out: &mut Vec<u8>, v: u32) {
    out.extend_from_slice(&v.to_le_bytes());
}

fn push_f32_le(out: &mut Vec<u8>, v: f32) {
    out.extend_from_slice(&v.to_le_bytes());
}

fn push_record(out: &mut Vec<u8>, object: &str, property: &str, start: u32, end: u32, vals: &[f32]) {
    out.extend_from_slice(object.as_bytes());
    out.push(0);
    out.extend_from_slice(property.as_bytes());
    out.push(0);
    push_u32_le(out, start);
    push_u32_le(out, end);
    out.push(0);
    out.extend_from_slice(&[0u8; 32]);
    for v in vals {
        push_f32_le(out, *v);
    }
}

fn first_anim_floats() -> Vec<f32> {
    vec![
        0.0,
        0.007250005,
        0.028000012,
        0.060750026,
        0.10400003,
        0.15625003,
        0.21600005,
        0.28175005,
        0.352,
        0.42525005,
        0.5,
        0.57475,
        0.648,
        0.71825,
        0.7839999,
        0.84374994,
        0.896,
        0.9392501,
        0.972,
        0.99275005,
        1.0,
    ]
}

fn bits_of(vals: &[f32]) -> Vec<u32> {
    vals.iter().map(|v| v.to_bits()).collect()
}

fn single_anim() -> Vec<u8> {
    let mut out = Vec::new();
    push_u32_le(&mut out, 2048);
    push_f32_le(&mut out, 24.0);
    push_record(&mut out, "Cube", "opacity", 80, 100, &first_anim_floats());
    out
}

fn multi_anim() -> Vec<u8> {
    let mut out = Vec::new();
    push_u32_le(&mut out, 2048);
    push_f32_le(&mut out, 24.0);
    push_record(&mut out, "Cube", "opacity", 80, 100, &first_anim_floats());
    push_record(
        &mut out,
        "Cube",
        "other",
        100,
        105,
        &[1.0, 1.8320012, 3.8160005, 6.183999, 8.167998, 9.0],
    );
    push_record(
        &mut out,
        "Empty",
        "bla",
        20,
        30,
        &[
            1.0, 0.972, 0.89599997, 0.78400004, 0.648, 0.5, 0.352, 0.21600008, 0.10399997,
            0.027999878, 0.0,
        ],
    );
    out
}

fn first_anim_header() -> AnimationHeader {
    AnimationHeader {
        object_name: "Cube".to_string(),
        property_name: "opacity".to_string(),
        frame_start: 80,
        frame_end: 100,
        typ: 0,
    }
}

fn first_anim() -> Animation {
    Animation {
        header: first_anim_header(),
        values: AnimationValues(bits_of(&first_anim_floats())),
    }
}

#[test]
fn test_single_props_animation() {
    let input = single_anim();
    let output = props_animation(&input).unwrap();
    assert_eq!(
        output,
        PropsAnimation {
            version: 2048,
            fps_bits: 24.0f32.to_bits(),
            animations: vec![first_anim()],
        }
    );
}

#[test]
fn test_multi_props_animation() {
    let input = multi_anim();
    let output = props_animation(&input).unwrap();
    assert_eq!(
        output,
        PropsAnimation {
            version: 2048,
            fps_bits: 24.0f32.to_bits(),
            animations: vec![
                first_anim(),
                Animation {
                    header: AnimationHeader {
                        object_name: "Cube".to_string(),
                        property_name: "other".to_string(),
                        frame_start: 100,
                        frame_end: 105,
                        typ: 0,
                    },
                    values: AnimationValues(bits_of(&[
                        1.0, 1.8320012, 3.8160005, 6.183999, 8.167998, 9.0
                    ])),
                },
                Animation {
                    header: AnimationHeader {
                        object_name: "Empty".to_string(),
                        property_name: "bla".to_string(),
                        frame_start: 20,
                        frame_end: 30,
                        typ: 0,
                    },
                    values: AnimationValues(bits_of(&[
                        1.0, 0.972, 0.89599997, 0.78400004, 0.648, 0.5, 0.352, 0.21600008,
                        0.10399997, 0.027999878, 0.0,
                    ])),
                },
            ],
        }
    );
}

#[test]
fn test_first_animation() {
    let bytes = single_anim();
    let (output, next) = animation(&bytes, 8).unwrap();
    assert_eq!(output, first_anim());
    assert_eq!(next, bytes.len());
}

#[test]
fn test_first_animation_header() {
    let bytes = single_anim();
    let input = &bytes[8..62];
    let (output, next) = animation_header(input, 0).unwrap();
    assert_eq!(output, first_anim_header());
    assert_eq!(next, input.len());
}

#[test]
fn test_first_animation_values() {
    let bytes = single_anim();
    let input = &bytes[62..];
    let (output, next) = animation_values(&first_anim_header(), input, 0).unwrap();
    assert_eq!(output, AnimationValues(bits_of(&first_anim_floats())));
    assert_eq!(next, input.len());
}

#[test]
fn test_semver() {
    let input = PropsAnimation {
        version: 2048,
        fps_bits: 24.0f32.to_bits(),
        animations: vec![],
    };
    let output = input.semver();
    assert_eq!(output, (0, 2, 0));
}

#[test]
fn test_zero_term_str() {
    let input: &[u8] = b"hello\0world\0";
    let (output, next) = zero_term_str(input, 0).unwrap();
    assert_eq!(output, "hello");
    assert_eq!(next, 6);
    assert_eq!(&input[next..], b"world\0");
}

#[test]
fn semver_unpacks_all_three_fields() {
    let input = PropsAnimation {
        version: (3 << 20) | (5 << 10) | 7,
        fps_bits: 0,
        animations: vec![],
    };
    assert_eq!(input.semver(), (3, 5, 7));
}

#[test]
fn multibyte_utf8_name_is_decoded() {
    let mut input = Vec::new();
    push_u32_le(&mut input, 2048);
    push_f32_le(&mut input, 24.0);
    push_record(&mut input, "Kub\u{e9}", "opacity", 1, 1, &[0.5]);
    let output = props_animation(&input).unwrap();
    let name = &output.animations[0].header.object_name;
    assert_eq!(name, "Kub\u{e9}");
    assert_eq!(name.chars().count(), 4);
    assert_eq!(name.len(), 5);
}

#[test]
fn truncated_preamble_is_rejected() {
    let input = single_anim();
    let result = props_animation(&input[..7]);
    match result {
        Err(Error::TruncatedInput { offset, .. }) => assert_eq!(offset, 4),
        other => panic!("expected TruncatedInput, got {:?}", other),
    }
}

#[test]
fn missing_name_terminator_is_rejected() {
    let mut input = Vec::new();
    push_u32_le(&mut input, 2048);
    push_f32_le(&mut input, 24.0);
    input.extend_from_slice(b"Cube");
    let result = props_animation(&input);
    match result {
        Err(Error::TruncatedInput { offset, preview }) => {
            assert_eq!(offset, 8);
            assert_eq!(preview, b"Cube".to_vec());
        },
        other => panic!("expected TruncatedInput, got {:?}", other),
    }
}

#[test]
fn value_array_short_by_one_byte_is_rejected() {
    let input = single_anim();
    let cut = &input[..input.len() - 1];
    let result = props_animation(cut);
    match result {
        Err(Error::TruncatedInput { offset, .. }) => {
            // 8-byte preamble, 54-byte header, then 20 complete samples.
            assert_eq!(offset, 62 + 20 * 4);
        },
        other => panic!("expected TruncatedInput, got {:?}", other),
    }
}

#[test]
fn invalid_utf8_name_is_rejected() {
    let mut input = Vec::new();
    push_u32_le(&mut input, 2048);
    push_f32_le(&mut input, 24.0);
    input.extend_from_slice(&[0x43, 0xFF, 0x00]);
    let result = props_animation(&input);
    match result {
        Err(Error::InvalidUtf8 { offset, preview }) => {
            assert_eq!(offset, 8);
            assert_eq!(preview, vec![0x43, 0xFF, 0x00]);
        },
        other => panic!("expected InvalidUtf8, got {:?}", other),
    }
}

#[test]
fn inverted_frame_range_is_rejected() {
    let mut input = Vec::new();
    push_u32_le(&mut input, 2048);
    push_f32_le(&mut input, 24.0);
    push_record(&mut input, "Cube", "opacity", 5, 3, &[]);
    let result = props_animation(&input);
    match result {
        Err(Error::InvalidFrameRange { frame_start, frame_end }) => {
            assert_eq!(frame_start, 5);
            assert_eq!(frame_end, 3);
        },
        other => panic!("expected InvalidFrameRange, got {:?}", other),
    }
}

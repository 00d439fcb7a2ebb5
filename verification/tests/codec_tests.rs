use wpipe::codec::encode_descriptor;
use wpipe::decode::decode_descriptor;
use wpipe::descriptor::{DataFormat, Interface, NodeDataType, ProgramInfo};

fn iface(name: &str, f: DataFormat) -> (String, Interface) {
    (name.to_string(), Interface { name: name.to_string(), data_format: f })
}

const ECHO_SIDECAR: &str = "{\"human_name\":\"Echo\",\"description\":\"d\",\"category\":\"c\",\"inputs\":{\"in\":{\"name\":\"in\",\"data_format\":\"Tick\"}},\"outputs\":{\"out\":{\"name\":\"out\",\"data_format\":\"Tick\"}}}";

#[test]
fn decode_echo_sidecar() {
    let info = decode_descriptor(ECHO_SIDECAR).expect("canonical text decodes");
    assert_eq!(info.human_name, "Echo");
    assert_eq!(info.description, "d");
    assert_eq!(info.category, "c");
    assert_eq!(info.inputs.len(), 1);
    assert_eq!(info.inputs[0].0, "in");
    assert_eq!(info.inputs[0].1.name, "in");
    assert!(matches!(info.inputs[0].1.data_format, DataFormat::Tick));
    assert_eq!(info.outputs.len(), 1);
    assert_eq!(info.outputs[0].0, "out");
    assert!(matches!(info.outputs[0].1.data_format, DataFormat::Tick));
}

#[test]
fn encode_inverts_decode_on_canonical_text() {
    let info = decode_descriptor(ECHO_SIDECAR).expect("canonical text decodes");
    assert_eq!(encode_descriptor(&info), ECHO_SIDECAR);
}

#[test]
fn round_trip_with_all_formats_and_escapes() {
    let info = ProgramInfo {
        human_name: "Quote \" and backslash \\".to_string(),
        description: "desc".to_string(),
        category: "cat".to_string(),
        inputs: vec![
            iface("a", DataFormat::Tick),
            iface("b", DataFormat::Json("{\"type\":\"number\",\"min\":0}".to_string())),
            iface("c", DataFormat::ConstNumber),
        ],
        outputs: vec![iface("z", DataFormat::ConstString)],
    };
    let text = encode_descriptor(&info);
    let back = decode_descriptor(&text).expect("own encoding decodes");
    assert_eq!(back.human_name, info.human_name);
    assert_eq!(back.description, info.description);
    assert_eq!(back.category, info.category);
    assert_eq!(back.inputs.len(), 3);
    assert_eq!(back.inputs[0].0, "a");
    assert!(matches!(back.inputs[1].1.data_format,
        DataFormat::Json(ref s) if s == "{\"type\":\"number\",\"min\":0}"));
    assert!(matches!(back.inputs[2].1.data_format, DataFormat::ConstNumber));
    assert_eq!(back.outputs.len(), 1);
    assert!(matches!(back.outputs[0].1.data_format, DataFormat::ConstString));
    // A second pass is bit-identical.
    assert_eq!(encode_descriptor(&back), text);
}

#[test]
fn round_trip_with_empty_tables() {
    let info = ProgramInfo {
        human_name: "n".to_string(),
        description: "".to_string(),
        category: "".to_string(),
        inputs: vec![],
        outputs: vec![],
    };
    let text = encode_descriptor(&info);
    assert_eq!(
        text,
        "{\"human_name\":\"n\",\"description\":\"\",\"category\":\"\",\"inputs\":{},\"outputs\":{}}"
    );
    let back = decode_descriptor(&text).expect("own encoding decodes");
    assert_eq!(back.human_name, "n");
    assert!(back.inputs.is_empty());
    assert!(back.outputs.is_empty());
}

#[test]
fn unknown_tag_is_rejected() {
    let text = ECHO_SIDECAR.replace("\"Tick\"", "\"Tock\"");
    assert!(decode_descriptor(&text).is_none());
}

#[test]
fn missing_field_is_rejected() {
    let text = ECHO_SIDECAR.replace("\"description\":\"d\",", "");
    assert!(decode_descriptor(&text).is_none());
}

#[test]
fn trailing_garbage_is_rejected() {
    let mut text = ECHO_SIDECAR.to_string();
    text.push(' ');
    assert!(decode_descriptor(&text).is_none());
}

#[test]
fn duplicate_keys_are_rejected() {
    let text = "{\"human_name\":\"E\",\"description\":\"d\",\"category\":\"c\",\"inputs\":{\"in\":{\"name\":\"in\",\"data_format\":\"Tick\"},\"in\":{\"name\":\"in\",\"data_format\":\"Tick\"}},\"outputs\":{}}";
    assert!(decode_descriptor(text).is_none());
}

#[test]
fn empty_schema_is_rejected() {
    let text = "{\"human_name\":\"E\",\"description\":\"d\",\"category\":\"c\",\"inputs\":{\"in\":{\"name\":\"in\",\"data_format\":{\"Json\":}}},\"outputs\":{}}";
    assert!(decode_descriptor(text).is_none());
}

#[test]
fn unterminated_schema_is_rejected() {
    let text = "{\"human_name\":\"E\",\"description\":\"d\",\"category\":\"c\",\"inputs\":{\"in\":{\"name\":\"in\",\"data_format\":{\"Json\":{\"a\":1";
    assert!(decode_descriptor(text).is_none());
}

#[test]
fn format_kinds() {
    assert_eq!(DataFormat::Tick.kind(), NodeDataType::Tick);
    assert_eq!(DataFormat::Json("1".to_string()).kind(), NodeDataType::Json);
    assert_eq!(DataFormat::ConstNumber.kind(), NodeDataType::ConstNumber);
    assert_eq!(DataFormat::ConstString.kind(), NodeDataType::ConstString);
}

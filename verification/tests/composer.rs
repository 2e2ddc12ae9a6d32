use wah_polyglot::compose::{
    assemble_module, compose_html_tar, replace_bytes, render_standalone_html, StageInputs,
    TarInit, TarRecord, Target,
};
use wah_polyglot::dom::{SourceCharacter, SourceDocument, Structure, TagSpan};
use wah_polyglot::error::ComposeError;

const WASM_HEADER: [u8; 8] = [0x00, 0x61, 0x73, 0x6d, 0x01, 0x00, 0x00, 0x00];

fn custom_section(name: &str, data: &[u8]) -> Vec<u8> {
    // Minimal LEB128 for the sizes this test uses (all below 128).
    assert!(name.len() < 128 && name.len() + data.len() + 1 < 128);
    let mut out = vec![0u8, (1 + name.len() + data.len()) as u8, name.len() as u8];
    out.extend_from_slice(name.as_bytes());
    out.extend_from_slice(data);
    out
}

fn inputs(wasm: Vec<u8>) -> StageInputs {
    StageInputs {
        stage0: vec![1],
        stage1: vec![2],
        stage1_edit: vec![7, 7],
        edit: false,
        experimental_allowed: false,
        index_html: None,
        stage2: vec![3],
        wasm,
        stage3: None,
        extra_sections: Vec::new(),
        trailing_zip: None,
        zip_section_name: None,
    }
}

#[test]
fn module_target_is_ordered_and_byte_exact() {
    let mut input = inputs(WASM_HEADER.to_vec());
    input.index_html = Some(vec![9, 9]);
    input.stage3 = Some(vec![4]);
    input.extra_sections = vec![("xyz".to_string(), vec![8])];
    input.trailing_zip = Some(vec![5, 6]);
    let out = assemble_module(&input, Target::WasmPlusHtml).unwrap();
    let mut expected = WASM_HEADER.to_vec();
    expected.extend_from_slice(&custom_section("wah_polyglot_stage0", &[1]));
    expected.extend_from_slice(&custom_section("wah_polyglot_stage1", &[2]));
    expected.extend_from_slice(&custom_section("wah_polyglot_stage1_html", &[9, 9]));
    expected.extend_from_slice(&custom_section("wah_polyglot_stage2", &[3]));
    expected.extend_from_slice(&custom_section("wah_polyglot_stage3", &[4]));
    expected.extend_from_slice(&custom_section("xyz", &[8]));
    expected.extend_from_slice(&custom_section("wah_polyglot_stage2_data", &[5, 6]));
    assert_eq!(out, expected);
}

#[test]
fn passthrough_reproduces_original_sections_losslessly() {
    // Build an input module with its own custom sections.
    let mut encoder = wasm_encoder::Module::new();
    encoder.section(&wasm_encoder::CustomSection {
        name: "first".into(),
        data: std::borrow::Cow::Borrowed(&[10, 20, 30]),
    });
    encoder.section(&wasm_encoder::CustomSection {
        name: "second".into(),
        data: std::borrow::Cow::Borrowed(&[40]),
    });
    let original = encoder.finish();
    let out = assemble_module(&inputs(original.clone()), Target::WasmPlusHtml).unwrap();
    // The assembled stream is the stage sections followed by the original's
    // sections byte-for-byte, in the original order.
    let mut expected = WASM_HEADER.to_vec();
    expected.extend_from_slice(&custom_section("wah_polyglot_stage0", &[1]));
    expected.extend_from_slice(&custom_section("wah_polyglot_stage1", &[2]));
    expected.extend_from_slice(&custom_section("wah_polyglot_stage2", &[3]));
    expected.extend_from_slice(&original[8..]);
    assert_eq!(out, expected);
    // And the result still parses, with the sections in order.
    let names: Vec<String> = wasmparser::Parser::new(0)
        .parse_all(&out)
        .filter_map(|p| match p.unwrap() {
            wasmparser::Payload::CustomSection(c) => Some(c.name().to_string()),
            _ => None,
        })
        .collect();
    assert_eq!(
        names,
        vec![
            "wah_polyglot_stage0".to_string(),
            "wah_polyglot_stage1".to_string(),
            "wah_polyglot_stage2".to_string(),
            "first".to_string(),
            "second".to_string(),
        ]
    );
}

#[test]
fn edit_flag_selects_the_hot_reload_loader() {
    let mut input = inputs(WASM_HEADER.to_vec());
    input.edit = true;
    input.experimental_allowed = true;
    let out = assemble_module(&input, Target::WasmPlusHtml).unwrap();
    let mut expected = WASM_HEADER.to_vec();
    expected.extend_from_slice(&custom_section("wah_polyglot_stage0", &[1]));
    expected.extend_from_slice(&custom_section("wah_polyglot_stage1", &[7, 7]));
    expected.extend_from_slice(&custom_section("wah_polyglot_stage2", &[3]));
    assert_eq!(out, expected);
}

#[test]
fn trailing_zip_is_omitted_for_the_html_tar_target() {
    let mut input = inputs(WASM_HEADER.to_vec());
    input.trailing_zip = Some(vec![5, 6]);
    let out = assemble_module(&input, Target::HtmlPlusTar).unwrap();
    let mut expected = WASM_HEADER.to_vec();
    expected.extend_from_slice(&custom_section("wah_polyglot_stage0", &[1]));
    expected.extend_from_slice(&custom_section("wah_polyglot_stage1", &[2]));
    expected.extend_from_slice(&custom_section("wah_polyglot_stage2", &[3]));
    assert_eq!(out, expected);
}

#[test]
fn custom_zip_section_name_is_used() {
    let mut input = inputs(WASM_HEADER.to_vec());
    input.trailing_zip = Some(vec![5]);
    input.zip_section_name = Some("my_data".to_string());
    let out = assemble_module(&input, Target::WasmPlusHtml).unwrap();
    let tail = custom_section("my_data", &[5]);
    assert_eq!(&out[out.len() - tail.len()..], tail.as_slice());
}

#[test]
fn malformed_module_is_a_parse_error() {
    let r = assemble_module(&inputs(vec![1, 2, 3]), Target::WasmPlusHtml);
    assert!(matches!(r, Err(ComposeError::ModuleParse(_))));
}

#[test]
fn replace_substitutes_every_occurrence() {
    let hay = b"x PAT y PAT z".to_vec();
    let out = replace_bytes(&hay, &b"PAT".to_vec(), &b"!".to_vec());
    assert_eq!(out, b"x ! y ! z".to_vec());
    // An empty pattern leaves the text alone.
    let same = replace_bytes(&hay, &Vec::new(), &b"!".to_vec());
    assert_eq!(same, hay);
}

#[test]
fn standalone_html_embeds_the_module_as_base64() {
    let template = b"<html>[__REPLACE_THIS_WITH_WASM_AS_A_DATA_URI__|__REPLACE_THIS_WITH_URI_LOADER__]</html>"
        .to_vec();
    let module = vec![0u8, 1, 2];
    let out = render_standalone_html(&module, &template, &b"CHUNKED".to_vec()).unwrap();
    let text = String::from_utf8(out).unwrap();
    // 0x000102 in standard base64 is AAEC: the wrapper must really encode.
    assert!(text.contains("data:application/octet-stream;base64,AAEC"));
    assert!(text.contains("await doc.arrayBuffer()"));
    assert!(!text.contains("CHUNKED"));
    assert!(!text.contains("__REPLACE_THIS_WITH"));
}

#[test]
fn size_classification_boundary_selects_the_loader() {
    let template = b"[__REPLACE_THIS_WITH_URI_LOADER__]".to_vec();
    // 38 + 4 * (n / 3) is the data-URI length for n divisible by 3.
    // n = 12582882 gives 16777214 < 2^24: the direct loader.
    let n_below: usize = 12_582_882;
    let out = render_standalone_html(&vec![0u8; n_below], &template, &b"CHUNKED".to_vec())
        .unwrap();
    assert!(out.windows(7).any(|w| w == b"fetch(U"));
    // n = 12582885 gives 16777218 >= 2^24: the chunked loader.
    let n_above: usize = 12_582_885;
    let out2 = render_standalone_html(&vec![0u8; n_above], &template, &b"CHUNKED".to_vec())
        .unwrap();
    assert_eq!(out2, b"[CHUNKED]".to_vec());
}

fn tar_record(tag: u8) -> TarRecord {
    TarRecord {
        padding: vec![tag, 0],
        header: vec![tag, 1],
        file: vec![tag, 2],
        data: vec![tag, 3],
    }
}

fn one_line_structure(text: &str) -> (SourceDocument, Structure) {
    let doc = SourceDocument::new(text.as_bytes().to_vec());
    let at = |needle: &str| text.find(needle).unwrap();
    let col = |off: usize| SourceCharacter { line: 1, column: off + 1 };
    let st = Structure {
        html_tag: TagSpan { start: col(0), end: col(text.len()) },
        html_insertion_point: at("<head>"),
        insertion_tag: TagSpan {
            start: col(at("<t id=C>")),
            end: col(at("</t>") + "</t>".len()),
        },
        stage0: TagSpan {
            start: col(at("<script id=S>")),
            end: col(at("</script>") + "</script>".len()),
        },
    };
    (doc, st)
}

#[test]
fn html_tar_layout_keeps_template_regions_verbatim() {
    let text = "<html><head><t id=C></t></head><body><script id=S></script></body></html>";
    let (doc, st) = one_line_structure(text);
    let init = TarInit { header: b"HH".to_vec(), extra: b"XX".to_vec(), consumed: 3 };
    let records = vec![tar_record(100), tar_record(200)];
    let eof = tar_record(250);
    let script = b"BOOT();".to_vec();
    let out = compose_html_tar(&doc, &st, &init, &records, &eof, &script).unwrap();
    let c_start = text.find("<t id=C>").unwrap();
    let c_end = text.find("</t>").unwrap() + "</t>".len();
    let s_start = text.find("<script id=S>").unwrap();
    let s_end = text.find("</script>").unwrap() + "</script>".len();
    let mut expected: Vec<u8> = Vec::new();
    expected.extend_from_slice(&text.as_bytes()[..st.html_insertion_point]);
    expected.extend_from_slice(b"HH");
    expected.extend_from_slice(b"XX");
    expected.extend_from_slice(&text.as_bytes()[3..c_start]);
    for r in [&records[0], &records[1], &eof] {
        expected.extend_from_slice(&r.padding);
        expected.extend_from_slice(&r.header);
        expected.extend_from_slice(&r.file);
        expected.extend_from_slice(&r.data);
    }
    expected.extend_from_slice(&text.as_bytes()[c_end..s_start]);
    expected.extend_from_slice(b"<script>");
    expected.extend_from_slice(b"BOOT();");
    expected.extend_from_slice(b"</script>");
    expected.extend_from_slice(&text.as_bytes()[s_end..]);
    assert_eq!(out, expected);
}

#[test]
fn oversize_data_uri_is_refused() {
    // 38 + 4 * (1_620_000_000 / 3) is past 2^31 characters.
    let module = vec![0u8; 1_620_000_000];
    let template = b"[__REPLACE_THIS_WITH_URI_LOADER__]".to_vec();
    let r = render_standalone_html(&module, &template, &b"CHUNKED".to_vec());
    assert!(matches!(r, Err(ComposeError::Oversize)));
}

#[test]
fn html_tar_rejects_disordered_anchors() {
    let text = "<html><head><t id=C></t></head><body><script id=S></script></body></html>";
    let (doc, mut st) = one_line_structure(text);
    std::mem::swap(&mut st.insertion_tag, &mut st.stage0);
    let init = TarInit { header: Vec::new(), extra: Vec::new(), consumed: 0 };
    let r = compose_html_tar(&doc, &st, &init, &Vec::new(), &tar_record(0), &Vec::new());
    assert!(matches!(r, Err(ComposeError::AnchorOrder)));
}

#[test]
fn html_tar_rejects_coordinates_outside_the_text() {
    let text = "<html><head><t id=C></t></head><body><script id=S></script></body></html>";
    let (doc, mut st) = one_line_structure(text);
    st.insertion_tag.start.line = 0;
    let init = TarInit { header: Vec::new(), extra: Vec::new(), consumed: 0 };
    let r = compose_html_tar(&doc, &st, &init, &Vec::new(), &tar_record(0), &Vec::new());
    assert!(matches!(r, Err(ComposeError::SpanOutOfRange)));
}

use wah_polyglot::dom::{SourceCharacter, SourceDocument, TagSpan};
use wah_polyglot::error::ResolveError;
use wah_polyglot::html::{element_end_of_start_tag, find_in_nodes, parse_html, HtmlElement, Selector};

const CONTENT_ID: &str = "WAH_POLYGLOT_HTML_PLUS_TAR_CONTENT";
const STAGE0_ID: &str = "WAH_POLYGLOT_HTML_PLUS_TAR_STAGE0";

fn doc_of(text: &str) -> SourceDocument {
    SourceDocument::new(text.as_bytes().to_vec())
}

#[test]
fn line_table_and_span_conversion() {
    let text = "ab\ncde\n\nf";
    let doc = doc_of(text);
    // Lines start at offsets 0, 3, 7, 8.
    assert_eq!(doc.line_count(), 4);
    assert_eq!(doc.line_start(0), 0);
    assert_eq!(doc.line_start(1), 3);
    assert_eq!(doc.line_start(2), 7);
    assert_eq!(doc.line_start(3), 8);
    let span = TagSpan {
        start: SourceCharacter { line: 2, column: 2 },
        end: SourceCharacter { line: 4, column: 1 },
    };
    let range = doc.span(span);
    assert_eq!(range.start, 4);
    assert_eq!(range.end, 8);
}

#[test]
fn resolves_present_anchors_to_exact_byte_ranges() {
    let text = format!(
        "<html lang=\"en\"><head><template id=\"{CONTENT_ID}\"></template></head>\
         <body><script id=\"{STAGE0_ID}\"></script></body></html>"
    );
    let mut doc = doc_of(&text);
    let st = doc.prepare_tar_structure().unwrap();
    // The text was not rewritten.
    assert_eq!(doc.text_bytes().as_slice(), text.as_bytes());
    // Independent location of the element boundaries by string search.
    let c_start = text.find("<template").unwrap();
    let c_end = text.find("</template>").unwrap() + "</template>".len();
    let s_start = text.find("<script").unwrap();
    let s_end = text.find("</script>").unwrap() + "</script>".len();
    let c_range = doc.span(st.insertion_tag);
    assert_eq!((c_range.start, c_range.end), (c_start, c_end));
    let s_range = doc.span(st.stage0);
    assert_eq!((s_range.start, s_range.end), (s_start, s_end));
    let h_range = doc.span(st.html_tag);
    assert_eq!(h_range.start, 0);
    assert_eq!(h_range.end, text.len());
    // The insertion point sits just past the `>` of `<html lang="en">`.
    assert_eq!(st.html_insertion_point, text.find("<head").unwrap());
}

#[test]
fn insertion_point_skips_attribute_embedded_gt() {
    let text = format!(
        "<html lang=\"en\" data-note=\"a>b>c\"><head>\
         <template id=\"{CONTENT_ID}\"></template></head>\
         <body><script id=\"{STAGE0_ID}\"></script></body></html>"
    );
    let mut doc = doc_of(&text);
    let st = doc.prepare_tar_structure().unwrap();
    // Two `>` inside the attribute value must be skipped.
    assert_eq!(st.html_insertion_point, text.find("<head").unwrap());
}

#[test]
fn synthesizes_both_missing_anchors_once() {
    let text = "<html><head><title>t</title></head><body><p>hi</p></body></html>";
    let mut doc = doc_of(text);
    let st = doc.prepare_tar_structure().unwrap();
    let rewritten = String::from_utf8(doc.text_bytes().clone()).unwrap();
    assert_ne!(rewritten.as_str(), text);
    assert!(rewritten.contains(CONTENT_ID));
    assert!(rewritten.contains(STAGE0_ID));
    // The spans address the rewritten text.
    let c_range = doc.span(st.insertion_tag);
    assert!(rewritten[c_range.clone()].contains(CONTENT_ID));
    let s_range = doc.span(st.stage0);
    assert!(rewritten[s_range.clone()].starts_with("<script"));
    // The synthesized content anchor lives in head, the script anchor in body.
    assert!(c_range.end <= rewritten.find("<body").unwrap());
    assert!(s_range.start >= rewritten.find("<body").unwrap());
    // Resolution is idempotent: a second run performs no further synthesis.
    let before = doc.text_bytes().clone();
    let st2 = doc.prepare_tar_structure().unwrap();
    assert_eq!(doc.text_bytes(), &before);
    let r1 = doc.span(st2.insertion_tag);
    assert!(rewritten[r1].contains(CONTENT_ID));
}

#[test]
fn synthesizes_only_the_missing_marker() {
    let text = format!(
        "<html><head><template id=\"{CONTENT_ID}\"></template></head>\
         <body><p>hi</p></body></html>"
    );
    let mut doc = doc_of(&text);
    doc.prepare_tar_structure().unwrap();
    let rewritten = String::from_utf8(doc.text_bytes().clone()).unwrap();
    assert_eq!(rewritten.matches(CONTENT_ID).count(), 1);
    assert_eq!(rewritten.matches(STAGE0_ID).count(), 1);
}

#[test]
fn missing_head_for_synthesis_is_its_own_error() {
    let text = "<html><body><p>hi</p></body></html>";
    let mut doc = doc_of(text);
    let err = doc.prepare_tar_structure().unwrap_err();
    assert!(matches!(err, ResolveError::NoHead));
    assert_eq!(err.content(), "fallback location for template data");
    assert_eq!(err.searched_for(), "the end of `<head>` tag");
}

#[test]
fn missing_body_for_synthesis_is_its_own_error() {
    let text = format!(
        "<html><head><template id=\"{CONTENT_ID}\"></template></head></html>"
    );
    let mut doc = doc_of(&text);
    let err = doc.prepare_tar_structure().unwrap_err();
    assert!(matches!(err, ResolveError::NoBody));
}

#[test]
fn missing_root_element_is_reported() {
    let mut doc = doc_of("<div><p>no root</p></div>");
    let err = doc.prepare_tar_structure().unwrap_err();
    assert!(matches!(err, ResolveError::NoRoot));
    assert_eq!(err.content(), "begin of Tar file");
    assert_eq!(err.searched_for(), "starting `<html>` tag");
}

#[test]
fn invalid_utf8_is_a_parse_failure() {
    let mut doc = SourceDocument::new(vec![0xff, 0xfe, 0x00]);
    let err = doc.prepare_tar_structure().unwrap_err();
    assert!(matches!(err, ResolveError::Unparsable));
}

#[test]
fn root_match_is_case_insensitive() {
    let text = format!(
        "<HTML><head><template id=\"{CONTENT_ID}\"></template></head>\
         <body><script id=\"{STAGE0_ID}\"></script></body></HTML>"
    );
    let mut doc = doc_of(&text);
    assert!(doc.prepare_tar_structure().is_ok());
}

#[test]
fn document_order_search_takes_the_first_match() {
    let text = "<html><body><script id=\"a\">1</script><script id=\"b\">2</script></body></html>";
    let nodes = parse_html(&text.as_bytes().to_vec()).unwrap();
    let sel = Selector::Name(b"script".to_vec());
    let first = find_in_nodes(&nodes, &sel).unwrap();
    let range = SourceDocument::new(text.as_bytes().to_vec()).span(first.span);
    assert!(text[range].contains("id=\"a\""));
}

#[test]
fn reparse_rebuilds_a_resolvable_document() {
    let text = format!(
        "<html><head><template id=\"{CONTENT_ID}\"></template></head>\
         <body><script id=\"{STAGE0_ID}\"></script></body></html>"
    );
    let nodes = parse_html(&text.as_bytes().to_vec()).unwrap();
    let mut doc = SourceDocument::from_reparse(&nodes);
    // The printer reformats, but every anchor survives the round trip.
    let printed = String::from_utf8(doc.text_bytes().clone()).unwrap();
    assert!(printed.contains(CONTENT_ID));
    assert!(printed.contains(STAGE0_ID));
    assert!(doc.prepare_tar_structure().is_ok());
}

fn element_over(text: &str, attrs: Vec<(Vec<u8>, Option<Vec<u8>>)>) -> HtmlElement {
    HtmlElement {
        name: b"html".to_vec(),
        void: false,
        attrs,
        classes: Vec::new(),
        span: TagSpan {
            start: SourceCharacter { line: 1, column: 1 },
            end: SourceCharacter { line: 1, column: text.len() + 1 },
        },
        children: Vec::new(),
    }
}

#[test]
fn end_of_start_tag_counts_attribute_gt_bytes() {
    let text = "<html a=\"x>y\" b=\"p>q\"><head></head></html>";
    let doc = doc_of(text);
    let attrs = vec![
        (b"a".to_vec(), Some(b"x>y".to_vec())),
        (b"b".to_vec(), Some(b"p>q".to_vec())),
    ];
    let el = element_over(text, attrs);
    // The two attribute `>` bytes are skipped; the third closes the tag.
    assert_eq!(element_end_of_start_tag(&doc, &el), Some(text.find("<head").unwrap()));
}

#[test]
fn end_of_start_tag_fails_without_a_closing_gt() {
    let text = "<html a=\"x>y\"";
    let doc = doc_of(text);
    let el = element_over(text, vec![(b"a".to_vec(), Some(b"x>y".to_vec()))]);
    assert_eq!(element_end_of_start_tag(&doc, &el), None);
}

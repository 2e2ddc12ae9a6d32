//! Documents as byte buffers with a derived line-offset table, and the
//! conversion from the HTML parser's 1-based (line, column) coordinates to
//! absolute byte offsets.

use vstd::prelude::*;

use crate::error::ResolveError;
use crate::html::{
    attrs_gt, chars_bytes, count_gt, element_end_of_start_tag, find_in_nodes, insert_marker,
    make_marker,
    parse_html, render_html, spec_end_of_start_tag, spec_find_nodes, spec_inserted_nodes,
    spec_is_marker, spec_parse_outcome, spec_render, GSelector, HtmlElement, HtmlNode, Selector,
};

verus! {

/// A 1-based (line, column) coordinate as reported by the HTML parser.
#[derive(Clone, Copy, PartialEq, Eq, Structural)]
#[derive(Debug)]
pub struct SourceCharacter {
    pub line: usize,
    pub column: usize,
}

/// The outer extent of an element in the source text.
#[derive(Clone, Copy, PartialEq, Eq, Structural)]
#[derive(Debug)]
pub struct TagSpan {
    pub start: SourceCharacter,
    pub end: SourceCharacter,
}

/// The resolved anchors of a template document: the root element, the byte
/// offset just past the closing `>` of its opening tag, the content-insertion
/// element and the script-entry element.
#[derive(Debug)]
pub struct Structure {
    pub html_tag: TagSpan,
    pub html_insertion_point: usize,
    pub insertion_tag: TagSpan,
    pub stage0: TagSpan,
}

/// Document text plus a table holding, at index `i`, the byte offset at which
/// line `i + 1` starts. Offsets are 0-based; lines and columns are 1-based.
pub struct SourceDocument {
    text: Vec<u8>,
    by_line: Vec<usize>,
}

/// `p` is the first byte of a line: the document start, or any byte directly
/// after a line feed.
pub open spec fn is_line_start(text: Seq<u8>, p: int) -> bool {
    0 <= p < text.len() && (p == 0 || text[p - 1] == 10u8)
}

/// The line-start offsets among the first `n` bytes, in increasing order.
pub open spec fn line_starts_upto(text: Seq<u8>, n: int) -> Seq<usize>
    decreases n,
{
    if n <= 0 {
        Seq::empty()
    } else if is_line_start(text, n - 1) {
        line_starts_upto(text, n - 1).push((n - 1) as usize)
    } else {
        line_starts_upto(text, n - 1)
    }
}

/// All line-start offsets of the document, in increasing order.
pub open spec fn spec_line_starts(text: Seq<u8>) -> Seq<usize> {
    line_starts_upto(text, text.len() as int)
}

impl SourceDocument {
    /// The document's bytes.
    pub closed spec fn text_view(&self) -> Seq<u8> {
        self.text@
    }

    /// The derived line table.
    pub closed spec fn lines_view(&self) -> Seq<usize> {
        self.by_line@
    }

    /// The line table is exactly the table derived from the text.
    pub open spec fn wf(&self) -> bool {
        self.lines_view() == spec_line_starts(self.text_view())
    }

    /// Build a document from its bytes, scanning once for line starts.
    pub fn new(text: Vec<u8>) -> (r: Self)
        ensures
            r.wf(),
            r.text_view() == text@,
    {
        let mut by_line: Vec<usize> = Vec::new();
        let n: usize = text.len();
        let mut i: usize = 0;
        while i < n
            invariant
                i <= n,
                n == text@.len(),
                by_line@ == line_starts_upto(text@, i as int),
            decreases n - i,
        {
            if i == 0 || text[i - 1] == 10u8 {
                by_line.push(i);
            }
            i += 1;
        }
        SourceDocument { text, by_line }
    }

    /// Borrow the document's bytes.
    pub fn text_bytes(&self) -> (r: &Vec<u8>)
        ensures
            r@ == self.text_view(),
    {
        &self.text
    }

    /// Rebuild a document from a re-serialized element tree: print the
    /// tree and derive a fresh line table against the new text.
    pub fn from_reparse(nodes: &Vec<HtmlNode>) -> (r: Self)
        ensures
            r.wf(),
            r.text_view() == spec_render(nodes@),
    {
        SourceDocument::new(render_html(nodes))
    }

    /// Number of lines the table knows of.
    pub fn line_count(&self) -> (r: usize)
        ensures
            r == self.lines_view().len(),
    {
        self.by_line.len()
    }

    /// The absolute byte offset of a 1-based (line, column) coordinate.
    pub open spec fn spec_char_offset(&self, sc: SourceCharacter) -> int {
        self.lines_view()[sc.line - 1] + sc.column - 1
    }

    /// The coordinate can be converted: its line is in the table, its column
    /// is 1-based, and the resulting offset fits a machine word.
    pub open spec fn char_in_table(&self, sc: SourceCharacter) -> bool {
        &&& 1 <= sc.line <= self.lines_view().len()
        &&& 1 <= sc.column
        &&& self.spec_char_offset(sc) <= usize::MAX
    }

    /// The byte offset at which line `k + 1` starts.
    pub fn line_start(&self, k: usize) -> (r: usize)
        requires
            k < self.lines_view().len(),
        ensures
            r == self.lines_view()[k as int],
    {
        self.by_line[k]
    }

    /// Decide whether a coordinate can be converted to a byte offset.
    pub fn char_ok(&self, sc: SourceCharacter) -> (b: bool)
        ensures
            b == self.char_in_table(sc),
    {
        if sc.line < 1 || sc.line > self.by_line.len() || sc.column < 1 {
            return false;
        }
        let base: u128 = self.by_line[sc.line - 1] as u128;
        base + ((sc.column - 1) as u128) <= (usize::MAX as u128)
    }

    /// Convert a tag span to the absolute byte range of its outer extent.
    /// Columns are taken as byte counts within their line.
    pub fn span(&self, span: TagSpan) -> (r: core::ops::Range<usize>)
        requires
            self.char_in_table(span.start),
            self.char_in_table(span.end),
        ensures
            r.start == self.spec_char_offset(span.start),
            r.end == self.spec_char_offset(span.end),
    {
        let start: usize = self.by_line[span.start.line - 1] + (span.start.column - 1);
        let end: usize = self.by_line[span.end.line - 1] + (span.end.column - 1);
        start..end
    }
}

/// Selector for the root element: name lower-casing to `html`.
pub open spec fn html_sel() -> GSelector {
    GSelector::Name(chars_bytes("html"@))
}

/// Selector for the content-insertion anchor: the reserved identifier.
pub open spec fn content_sel() -> GSelector {
    GSelector::Id(chars_bytes("WAH_POLYGLOT_HTML_PLUS_TAR_CONTENT"@))
}

/// Selector for the script-entry anchor: a `script` element carrying the
/// reserved identifier.
pub open spec fn stage0_sel() -> GSelector {
    GSelector::NameId(
        chars_bytes("script"@),
        chars_bytes("WAH_POLYGLOT_HTML_PLUS_TAR_STAGE0"@),
    )
}

/// `st` is the structure resolved from this tree over this document: the
/// three spans are those of the first matches in document order, and the
/// insertion point sits just past the `>` closing the root's opening tag,
/// skipping attribute-embedded `>` bytes.
pub open spec fn spec_resolved(doc: SourceDocument, nodes: Seq<HtmlNode>, st: Structure) -> bool {
    &&& spec_find_nodes(nodes, html_sel()) matches Some(h)
    &&& spec_find_nodes(nodes, content_sel()) matches Some(c)
    &&& spec_find_nodes(nodes, stage0_sel()) matches Some(s)
    &&& {
        let h = spec_find_nodes(nodes, html_sel())->Some_0;
        let c = spec_find_nodes(nodes, content_sel())->Some_0;
        let s = spec_find_nodes(nodes, stage0_sel())->Some_0;
        &&& st.html_tag == h.span
        &&& st.insertion_tag == c.span
        &&& st.stage0 == s.span
        &&& doc.char_in_table(h.span.start)
        &&& doc.char_in_table(h.span.end)
        &&& doc.spec_char_offset(h.span.start) <= doc.spec_char_offset(h.span.end)
        &&& doc.spec_char_offset(h.span.end) <= doc.text_view().len()
        &&& spec_end_of_start_tag(
            doc.text_view().subrange(
                doc.spec_char_offset(h.span.start),
                doc.spec_char_offset(h.span.end),
            ),
            attrs_gt(h.attrs@),
            st.html_insertion_point - doc.spec_char_offset(h.span.start),
        )
    }
}

/// The insertion point cannot be computed from the root element's
/// reported coordinates: they do not address the text, or the element's
/// outer HTML has no `>` left once the attribute-embedded ones are
/// skipped.
pub open spec fn spec_ip_blocked(doc: SourceDocument, h: HtmlElement) -> bool {
    ||| !doc.char_in_table(h.span.start)
    ||| !doc.char_in_table(h.span.end)
    ||| doc.spec_char_offset(h.span.start) > doc.spec_char_offset(h.span.end)
    ||| doc.spec_char_offset(h.span.end) > doc.text_view().len()
    ||| count_gt(
        doc.text_view().subrange(
            doc.spec_char_offset(h.span.start),
            doc.spec_char_offset(h.span.end),
        ),
    ) <= attrs_gt(h.attrs@)
}

/// One synthesis step for the content anchor: nothing when it is present,
/// else an empty `template` marker appended as the last child of the first
/// `head` element.
pub open spec fn spec_content_step(pre: Seq<HtmlNode>, post: Seq<HtmlNode>) -> bool {
    if spec_find_nodes(pre, content_sel()) is Some {
        post == pre
    } else {
        exists|m: HtmlNode|
            #[trigger] spec_is_marker(
                m,
                chars_bytes("template"@),
                chars_bytes("WAH_POLYGLOT_HTML_PLUS_TAR_CONTENT"@),
            ) && spec_inserted_nodes(pre, post, chars_bytes("head"@), m, false)
    }
}

/// One synthesis step for the script anchor: nothing when the original
/// tree already has it, else an empty marker `script` prepended as the
/// first child of the first `body` element of `pre` (the tree after the
/// content step).
pub open spec fn spec_script_step(orig: Seq<HtmlNode>, pre: Seq<HtmlNode>, post: Seq<HtmlNode>) -> bool {
    if spec_find_nodes(orig, stage0_sel()) is Some {
        post == pre
    } else {
        exists|m: HtmlNode|
            #[trigger] spec_is_marker(
                m,
                chars_bytes("script"@),
                chars_bytes("WAH_POLYGLOT_HTML_PLUS_TAR_STAGE0"@),
            ) && spec_inserted_nodes(pre, post, chars_bytes("body"@), m, true)
    }
}

/// `t1` is the one-shot synthesis rewrite of `t0`: a parse of `t0` missed
/// at least one anchor, the missing markers were added, and `t1` is the
/// re-serialization of that tree.
pub open spec fn spec_synthesized(t0: Seq<u8>, t1: Seq<u8>) -> bool {
    exists|nodes0: Seq<HtmlNode>, mid: Seq<HtmlNode>, fin: Seq<HtmlNode>|
        #![trigger spec_content_step(nodes0, mid), spec_script_step(nodes0, mid, fin)]
        {
            &&& spec_parse_outcome(t0, Some(nodes0))
            &&& !(spec_find_nodes(nodes0, content_sel()) is Some && spec_find_nodes(
                nodes0,
                stage0_sel(),
            ) is Some)
            &&& spec_content_step(nodes0, mid)
            &&& spec_script_step(nodes0, mid, fin)
            &&& t1 == spec_render(fin)
        }
}

/// Resolve a structure from an already-parsed tree. Errors name exactly
/// what is missing, in the order root, content anchor, script anchor;
/// coordinates that do not address the text fail as such.
fn structure_from(doc: &SourceDocument, nodes: &Vec<HtmlNode>) -> (r: Result<
    Structure,
    ResolveError,
>)
    requires
        doc.wf(),
    ensures
        match r {
            Ok(st) => spec_resolved(*doc, nodes@, st),
            Err(e) => match e {
                ResolveError::NoRoot => spec_find_nodes(nodes@, html_sel()) is None,
                ResolveError::NoContentAnchor => spec_find_nodes(nodes@, content_sel()) is None,
                ResolveError::NoScriptAnchor => spec_find_nodes(nodes@, stage0_sel()) is None,
                ResolveError::BadCoordinates => (spec_find_nodes(nodes@, html_sel()) matches Some(
                    h,
                ) && spec_ip_blocked(*doc, h)),
                _ => false,
            },
        },
{
    let html_el = match find_in_nodes(nodes, &Selector::Name("html".as_bytes_vec())) {
        Some(e) => e,
        None => {
            return Err(ResolveError::NoRoot);
        },
    };
    let content_el = match find_in_nodes(
        nodes,
        &Selector::Id("WAH_POLYGLOT_HTML_PLUS_TAR_CONTENT".as_bytes_vec()),
    ) {
        Some(e) => e,
        None => {
            return Err(ResolveError::NoContentAnchor);
        },
    };
    let stage0_el = match find_in_nodes(
        nodes,
        &Selector::NameId(
            "script".as_bytes_vec(),
            "WAH_POLYGLOT_HTML_PLUS_TAR_STAGE0".as_bytes_vec(),
        ),
    ) {
        Some(e) => e,
        None => {
            return Err(ResolveError::NoScriptAnchor);
        },
    };
    if !(doc.char_ok(html_el.span.start) && doc.char_ok(html_el.span.end)) {
        return Err(ResolveError::BadCoordinates);
    }
    let range = doc.span(html_el.span);
    let text_len = doc.text_bytes().len();
    if range.start > range.end || range.end > text_len {
        return Err(ResolveError::BadCoordinates);
    }
    let rel = match element_end_of_start_tag(doc, html_el) {
        Some(p) => p,
        None => {
            return Err(ResolveError::BadCoordinates);
        },
    };
    let ip: usize = range.start + rel;
    Ok(
        Structure {
            html_tag: html_el.span,
            html_insertion_point: ip,
            insertion_tag: content_el.span,
            stage0: stage0_el.span,
        },
    )
}

impl SourceDocument {
    /// Resolve the three anchors of this document, synthesizing missing
    /// ones exactly once: a `template` marker appended to `head` for the
    /// content anchor, a marker `script` prepended to `body` for the script
    /// anchor, followed by one re-serialization and one re-parse. The text
    /// is either untouched or replaced by that one rewrite.
    pub fn prepare_tar_structure(&mut self) -> (r: Result<Structure, ResolveError>)
        requires
            old(self).wf(),
        ensures
            final(self).wf(),
            final(self).text_view() == old(self).text_view() || spec_synthesized(
                old(self).text_view(),
                final(self).text_view(),
            ),
            r matches Ok(st) ==> exists|nodes: Seq<HtmlNode>|
                #[trigger] spec_parse_outcome(final(self).text_view(), Some(nodes))
                    && spec_resolved(*final(self), nodes, st),
            r matches Err(e) ==> match e {
                ResolveError::Unparsable => spec_parse_outcome(final(self).text_view(), None),
                ResolveError::NoRoot => exists|nodes: Seq<HtmlNode>|
                    #[trigger] spec_parse_outcome(final(self).text_view(), Some(nodes))
                        && spec_find_nodes(nodes, html_sel()) is None,
                ResolveError::NoContentAnchor => exists|nodes: Seq<HtmlNode>|
                    #[trigger] spec_parse_outcome(final(self).text_view(), Some(nodes))
                        && spec_find_nodes(nodes, content_sel()) is None,
                ResolveError::NoScriptAnchor => exists|nodes: Seq<HtmlNode>|
                    #[trigger] spec_parse_outcome(final(self).text_view(), Some(nodes))
                        && spec_find_nodes(nodes, stage0_sel()) is None,
                ResolveError::NoHead => exists|nodes: Seq<HtmlNode>|
                    #[trigger] spec_parse_outcome(final(self).text_view(), Some(nodes))
                        && spec_find_nodes(nodes, content_sel()) is None && spec_find_nodes(
                        nodes,
                        GSelector::Name(chars_bytes("head"@)),
                    ) is None,
                ResolveError::NoBody => exists|nodes: Seq<HtmlNode>, mid: Seq<HtmlNode>|
                    #![trigger spec_parse_outcome(final(self).text_view(), Some(nodes)), spec_content_step(nodes, mid)]
                    {
                        &&& spec_parse_outcome(final(self).text_view(), Some(nodes))
                        &&& spec_find_nodes(nodes, stage0_sel()) is None
                        &&& spec_content_step(nodes, mid)
                        &&& spec_find_nodes(mid, GSelector::Name(chars_bytes("body"@))) is None
                    },
                ResolveError::BadCoordinates => exists|nodes: Seq<HtmlNode>|
                    #[trigger] spec_parse_outcome(final(self).text_view(), Some(nodes))
                        && (spec_find_nodes(nodes, html_sel()) matches Some(h) && spec_ip_blocked(
                        *final(self),
                        h,
                    )),
            },
    {
        let nodes0 = match parse_html(&self.text) {
            Ok(n) => n,
            Err(_) => {
                return Err(ResolveError::Unparsable);
            },
        };
        if find_in_nodes(&nodes0, &Selector::Name("html".as_bytes_vec())).is_none() {
            return Err(ResolveError::NoRoot);
        }
        let have_c = find_in_nodes(
            &nodes0,
            &Selector::Id("WAH_POLYGLOT_HTML_PLUS_TAR_CONTENT".as_bytes_vec()),
        ).is_some();
        let have_s = find_in_nodes(
            &nodes0,
            &Selector::NameId(
                "script".as_bytes_vec(),
                "WAH_POLYGLOT_HTML_PLUS_TAR_STAGE0".as_bytes_vec(),
            ),
        ).is_some();
        if have_c && have_s {
            return structure_from(self, &nodes0);
        }
        let mut nodes = nodes0;
        let ghost pre0 = nodes@;
        if !have_c {
            let span = TagSpan {
                start: SourceCharacter { line: 1, column: 1 },
                end: SourceCharacter { line: 1, column: 1 },
            };
            let m = make_marker("template", "WAH_POLYGLOT_HTML_PLUS_TAR_CONTENT", span);
            let ghost gm = m;
            let found = insert_marker(&mut nodes, &"head".as_bytes_vec(), m, false);
            if !found {
                return Err(ResolveError::NoHead);
            }
            proof {
                assert(spec_inserted_nodes(
                    pre0,
                    nodes@,
                    chars_bytes("head"@),
                    gm,
                    false,
                ));
            }
        }
        proof {
            assert(spec_content_step(pre0, nodes@));
        }
        let ghost mid = nodes@;
        if !have_s {
            let span = TagSpan {
                start: SourceCharacter { line: 1, column: 1 },
                end: SourceCharacter { line: 1, column: 1 },
            };
            let m = make_marker("script", "WAH_POLYGLOT_HTML_PLUS_TAR_STAGE0", span);
            let ghost gm = m;
            let found = insert_marker(&mut nodes, &"body".as_bytes_vec(), m, true);
            if !found {
                return Err(ResolveError::NoBody);
            }
            proof {
                assert(spec_inserted_nodes(mid, nodes@, chars_bytes("body"@), gm, true));
            }
        }
        proof {
            assert(spec_script_step(pre0, mid, nodes@));
        }
        let ghost fin = nodes@;
        *self = SourceDocument::from_reparse(&nodes);
        proof {
            assert(spec_synthesized(old(self).text_view(), self.text_view()));
        }
        let nodes1 = match parse_html(&self.text) {
            Ok(n) => n,
            Err(_) => {
                return Err(ResolveError::Unparsable);
            },
        };
        structure_from(self, &nodes1)
    }
}

} // verus!

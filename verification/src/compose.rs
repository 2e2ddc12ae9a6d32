//! Polyglot composer: assembles the layered WASM byte stream (stage sections,
//! passthrough of the input module's sections, extra and trailing sections)
//! and renders it into one of three output shapes.

use vstd::prelude::*;
use vstd::string::StringSliceAdditionalSpecFns;

use crate::dom::{SourceDocument, Structure};
use crate::error::ComposeError;
use crate::html::chars_bytes;

verus! {

/// How to wrap the assembled module.
#[derive(Clone, Copy, PartialEq, Eq, Structural)]
pub enum Target {
    /// Emit the assembled byte stream verbatim.
    WasmPlusHtml,
    /// Encode the stream as a data URI inside a fixed HTML template.
    Html,
    /// Splice the stream and TAR records into a resolved HTML template.
    HtmlPlusTar,
}

/// The bytes of a `&str`: its UTF-8 encoding.
pub open spec fn str_bytes(s: &str) -> Seq<u8> {
    s.spec_bytes()
}

/// Minimal unsigned LEB128 encoding of `n`: seven bits per byte, low bits
/// first, continuation bit on every byte but the last.
pub open spec fn leb128(n: int) -> Seq<u8>
    decreases n,
{
    if n < 128 {
        seq![n as u8]
    } else {
        seq![(n % 128 + 128) as u8] + leb128(n / 128)
    }
}

/// The 8-byte WASM header: magic and version 1.
pub open spec fn spec_wasm_header() -> Seq<u8> {
    seq![0x00u8, 0x61u8, 0x73u8, 0x6du8, 0x01u8, 0x00u8, 0x00u8, 0x00u8]
}

/// The encoding of one custom section: id byte 0, LEB128 payload size, the
/// LEB128-length-prefixed name, then the data.
pub open spec fn spec_custom_section(name: Seq<u8>, data: Seq<u8>) -> Seq<u8> {
    let name_len = leb128(name.len() as int);
    seq![0u8] + leb128(name_len.len() + name.len() + data.len() as int) + name_len + name + data
}

/// The encoding of one raw section: the id byte, the LEB128 data length,
/// then the data unchanged.
pub open spec fn spec_raw_section(id: u8, data: Seq<u8>) -> Seq<u8> {
    seq![id] + leb128(data.len() as int) + data
}

/// A custom section with this name and data fits the 32-bit sizes that the
/// encoder carries: five bytes cover the longest LEB128 length prefix of
/// the name, so name and data together must leave that margin.
pub open spec fn spec_custom_fits(name: Seq<u8>, data: Seq<u8>) -> bool {
    (name.len() as usize) + (data.len() as usize) <= u32::MAX - 5
}

/// The encoded bytes a module builder holds.
pub uninterp spec fn module_bytes(m: wasm_encoder::Module) -> Seq<u8>;

/// wasm_encoder's module builder, opaque to verification; `module_bytes`
/// names what it holds.
#[verifier::external_type_specification]
#[verifier::external_body]
pub struct ExModule(wasm_encoder::Module);

/// Relies on wasm_encoder::Module::new: a fresh builder holds exactly the
/// 8-byte WASM header.
#[verifier::external_body]
fn module_new() -> (m: wasm_encoder::Module)
    ensures
        module_bytes(m) == spec_wasm_header(),
{
    wasm_encoder::Module::new()
}

/// Relies on wasm_encoder::Module::section with CustomSection: appends the
/// custom-section id 0, the LEB128 payload size, the LEB128-length-prefixed
/// name, and the data.
#[verifier::external_body]
fn module_add_custom(m: &mut wasm_encoder::Module, name: &str, data: &Vec<u8>)
    requires
        spec_custom_fits(str_bytes(name), data@),
    ensures
        module_bytes(*final(m)) == module_bytes(*old(m)) + spec_custom_section(
            str_bytes(name),
            data@,
        ),
{
    m.section(
        &wasm_encoder::CustomSection {
            name: std::borrow::Cow::Borrowed(name),
            data: std::borrow::Cow::Borrowed(data.as_slice()),
        },
    );
}

/// Relies on wasm_encoder::Module::section with RawSection: appends the id
/// byte, the LEB128 length of the data, and the data unchanged.
#[verifier::external_body]
fn module_add_raw(m: &mut wasm_encoder::Module, id: u8, data: &Vec<u8>)
    requires
        data@.len() <= u32::MAX,
    ensures
        module_bytes(*final(m)) == module_bytes(*old(m)) + spec_raw_section(id, data@),
{
    m.section(&wasm_encoder::RawSection { id, data: data.as_slice() });
}

/// Relies on wasm_encoder::Module::finish: hands back the built bytes.
#[verifier::external_body]
fn module_finish(m: wasm_encoder::Module) -> (r: Vec<u8>)
    ensures
        r@ == module_bytes(m),
{
    m.finish()
}

/// One syntactic section of the input module: its id and the byte range of
/// its contents within the module.
#[derive(Clone, Copy, PartialEq, Eq, Structural)]
pub struct SectionRef {
    pub id: u8,
    pub start: usize,
    pub end: usize,
}

/// What wasmparser finds in a byte stream: the id and contents range of each
/// syntactic section in order, or nothing if the stream is rejected.
pub uninterp spec fn spec_wasm_sections(bytes: Seq<u8>) -> Option<Seq<SectionRef>>;

/// Every range reported for a parse lies within the parsed bytes.
pub open spec fn spec_sections_in_range(secs: Seq<SectionRef>, len: int) -> bool {
    forall|i: int|
        0 <= i < secs.len() ==> #[trigger] secs[i].start <= secs[i].end && secs[i].end <= len
}

/// Relies on wasmparser::Parser::parse_all and Payload::as_section: yields
/// each section's id and contents range, in stream order; the ranges address
/// the input. Fails exactly when the parser reports an error.
#[verifier::external_body]
fn parse_wasm_sections(wasm: &Vec<u8>) -> (r: Result<Vec<SectionRef>, String>)
    ensures
        match r {
            Ok(v) => spec_wasm_sections(wasm@) == Some(v@) && spec_sections_in_range(
                v@,
                wasm@.len() as int,
            ),
            Err(_) => spec_wasm_sections(wasm@) is None,
        },
{
    let mut out: Vec<SectionRef> = Vec::new();
    for payload in wasmparser::Parser::new(0).parse_all(wasm.as_slice()) {
        match payload {
            Ok(p) => if let Some((id, range)) = p.as_section() {
                out.push(SectionRef { id, start: range.start as usize, end: range.end as usize });
            },
            Err(e) => return Err(format!("{e}")),
        }
    }
    Ok(out)
}

/// Everything the composer assembles, as plain values. The embedded
/// resources (stage payloads, loader snippets) arrive as byte buffers read
/// by the caller.
pub struct StageInputs {
    /// Bootstrap payload, unconditionally the first custom section.
    pub stage0: Vec<u8>,
    /// The regular loader payload.
    pub stage1: Vec<u8>,
    /// The experimental hot-reload loader payload.
    pub stage1_edit: Vec<u8>,
    /// Select the hot-reload loader.
    pub edit: bool,
    /// The experimental environment flag is set; `edit` demands it.
    pub experimental_allowed: bool,
    /// Optional bootstrap HTML page, embedded as its own section.
    pub index_html: Option<Vec<u8>>,
    /// The caller-supplied stage-2 payload (mandatory).
    pub stage2: Vec<u8>,
    /// The input module whose sections pass through unchanged.
    pub wasm: Vec<u8>,
    /// Optional stage-3 boot payload, queued ahead of the extra sections.
    pub stage3: Option<Vec<u8>>,
    /// Caller-specified named sections, in order.
    pub extra_sections: Vec<(String, Vec<u8>)>,
    /// Optional trailing archive, emitted last unless the target is HTML+TAR.
    pub trailing_zip: Option<Vec<u8>>,
    /// Name for the trailing archive section; a fixed default if absent.
    pub zip_section_name: Option<String>,
}

/// The loader payload the edit flag selects.
pub open spec fn spec_stage1_payload(inputs: &StageInputs) -> Seq<u8> {
    if inputs.edit {
        inputs.stage1_edit@
    } else {
        inputs.stage1@
    }
}

/// The name of the trailing archive section.
pub open spec fn spec_zip_name(inputs: &StageInputs) -> Seq<u8> {
    match inputs.zip_section_name {
        Some(n) => chars_bytes(n@),
        None => chars_bytes("wah_polyglot_stage2_data"@),
    }
}

/// Passthrough encoding of the input module's sections, in order: each one
/// re-emitted as a raw section holding its original contents unchanged.
pub open spec fn spec_passthrough(secs: Seq<SectionRef>, wasm: Seq<u8>) -> Seq<u8>
    decreases secs.len(),
{
    if secs.len() == 0 {
        Seq::empty()
    } else {
        spec_raw_section(secs[0].id, wasm.subrange(secs[0].start as int, secs[0].end as int))
            + spec_passthrough(secs.drop_first(), wasm)
    }
}

/// The caller's named sections, encoded in the order given.
pub open spec fn spec_extras(extras: Seq<(String, Vec<u8>)>) -> Seq<u8>
    decreases extras.len(),
{
    if extras.len() == 0 {
        Seq::empty()
    } else {
        spec_custom_section(chars_bytes(extras[0].0@), extras[0].1@) + spec_extras(
            extras.drop_first(),
        )
    }
}

/// Every section of the assembly fits the 32-bit sizes of the encoding.
pub open spec fn spec_sizes_ok(inputs: &StageInputs, target: Target, secs: Seq<SectionRef>) -> bool {
    &&& spec_custom_fits(chars_bytes("wah_polyglot_stage0"@), inputs.stage0@)
    &&& spec_custom_fits(chars_bytes("wah_polyglot_stage1"@), spec_stage1_payload(inputs))
    &&& match inputs.index_html {
        Some(h) => spec_custom_fits(chars_bytes("wah_polyglot_stage1_html"@), h@),
        None => true,
    }
    &&& spec_custom_fits(chars_bytes("wah_polyglot_stage2"@), inputs.stage2@)
    &&& forall|i: int|
        0 <= i < secs.len() ==> #[trigger] secs[i].end - secs[i].start <= u32::MAX
    &&& match inputs.stage3 {
        Some(d) => spec_custom_fits(chars_bytes("wah_polyglot_stage3"@), d@),
        None => true,
    }
    &&& forall|i: int|
        0 <= i < inputs.extra_sections@.len() ==> spec_custom_fits(
            chars_bytes(#[trigger] inputs.extra_sections@[i].0@),
            inputs.extra_sections@[i].1@,
        )
    &&& match inputs.trailing_zip {
        Some(z) => target is HtmlPlusTar || spec_custom_fits(spec_zip_name(inputs), z@),
        None => true,
    }
}

/// The complete stage-A byte stream: header, the fixed-name stage sections,
/// the input module's sections verbatim, the stage-3 section, the extra
/// sections, and (except for the HTML+TAR target) the trailing archive.
pub open spec fn spec_assembled(inputs: &StageInputs, target: Target, secs: Seq<SectionRef>) -> Seq<
    u8,
> {
    spec_wasm_header() + spec_custom_section(chars_bytes("wah_polyglot_stage0"@), inputs.stage0@)
        + spec_custom_section(chars_bytes("wah_polyglot_stage1"@), spec_stage1_payload(inputs)) + (
    match inputs.index_html {
        Some(h) => spec_custom_section(chars_bytes("wah_polyglot_stage1_html"@), h@),
        None => Seq::empty(),
    }) + spec_custom_section(chars_bytes("wah_polyglot_stage2"@), inputs.stage2@)
        + spec_passthrough(secs, inputs.wasm@) + (match inputs.stage3 {
        Some(d) => spec_custom_section(chars_bytes("wah_polyglot_stage3"@), d@),
        None => Seq::empty(),
    }) + spec_extras(inputs.extra_sections@) + (match inputs.trailing_zip {
        Some(z) => if target is HtmlPlusTar {
            Seq::empty()
        } else {
            spec_custom_section(spec_zip_name(inputs), z@)
        },
        None => Seq::empty(),
    })
}

proof fn lemma_passthrough_push(secs: Seq<SectionRef>, wasm: Seq<u8>, s: SectionRef)
    ensures
        spec_passthrough(secs.push(s), wasm) == spec_passthrough(secs, wasm) + spec_raw_section(
            s.id,
            wasm.subrange(s.start as int, s.end as int),
        ),
    decreases secs.len(),
{
    if secs.len() == 0 {
        reveal_with_fuel(spec_passthrough, 3);
        assert(secs.push(s).drop_first() =~= Seq::<SectionRef>::empty());
        assert(spec_passthrough(secs.push(s), wasm) =~= spec_passthrough(secs, wasm)
            + spec_raw_section(s.id, wasm.subrange(s.start as int, s.end as int)));
    } else {
        assert(secs.push(s).drop_first() =~= secs.drop_first().push(s));
        lemma_passthrough_push(secs.drop_first(), wasm, s);
        assert(spec_passthrough(secs.push(s), wasm) =~= spec_passthrough(secs, wasm)
            + spec_raw_section(s.id, wasm.subrange(s.start as int, s.end as int)));
    }
}

proof fn lemma_extras_push(extras: Seq<(String, Vec<u8>)>, e: (String, Vec<u8>))
    ensures
        spec_extras(extras.push(e)) == spec_extras(extras) + spec_custom_section(
            chars_bytes(e.0@),
            e.1@,
        ),
    decreases extras.len(),
{
    if extras.len() == 0 {
        reveal_with_fuel(spec_extras, 3);
        assert(extras.push(e).drop_first() =~= Seq::<(String, Vec<u8>)>::empty());
        assert(spec_extras(extras.push(e)) =~= spec_extras(extras) + spec_custom_section(
            chars_bytes(e.0@),
            e.1@,
        ));
    } else {
        assert(extras.push(e).drop_first() =~= extras.drop_first().push(e));
        lemma_extras_push(extras.drop_first(), e);
        assert(spec_extras(extras.push(e)) =~= spec_extras(extras) + spec_custom_section(
            chars_bytes(e.0@),
            e.1@,
        ));
    }
}

/// A custom section with this name and data stays within the encoder's
/// 32-bit limits.
fn custom_fits(name: &str, data: &Vec<u8>) -> (b: bool)
    ensures
        b == spec_custom_fits(str_bytes(name), data@),
{
    (name.len() as u128) + (data.len() as u128) <= 0xFFFF_FFFAu128
}

/// Check every size limit of the assembly at once.
fn sizes_ok(inputs: &StageInputs, target: Target, secs: &Vec<SectionRef>) -> (b: bool)
    requires
        spec_sections_in_range(secs@, inputs.wasm@.len() as int),
    ensures
        b == spec_sizes_ok(inputs, target, secs@),
{
    if !custom_fits("wah_polyglot_stage0", &inputs.stage0) {
        return false;
    }
    let stage1: &Vec<u8> = if inputs.edit {
        &inputs.stage1_edit
    } else {
        &inputs.stage1
    };
    if !custom_fits("wah_polyglot_stage1", stage1) {
        return false;
    }
    match &inputs.index_html {
        Some(h) => {
            if !custom_fits("wah_polyglot_stage1_html", h) {
                return false;
            }
        },
        None => {},
    }
    if !custom_fits("wah_polyglot_stage2", &inputs.stage2) {
        return false;
    }
    let mut i: usize = 0;
    while i < secs.len()
        invariant
            i <= secs@.len(),
            spec_sections_in_range(secs@, inputs.wasm@.len() as int),
            forall|k: int| 0 <= k < i ==> #[trigger] secs@[k].end - secs@[k].start <= u32::MAX,
        decreases secs@.len() - i,
    {
        if secs[i].end - secs[i].start > (u32::MAX as usize) {
            return false;
        }
        i += 1;
    }
    match &inputs.stage3 {
        Some(d) => {
            if !custom_fits("wah_polyglot_stage3", d) {
                return false;
            }
        },
        None => {},
    }
    let mut j: usize = 0;
    while j < inputs.extra_sections.len()
        invariant
            j <= inputs.extra_sections@.len(),
            forall|k: int|
                0 <= k < j ==> spec_custom_fits(
                    chars_bytes(#[trigger] inputs.extra_sections@[k].0@),
                    inputs.extra_sections@[k].1@,
                ),
        decreases inputs.extra_sections@.len() - j,
    {
        if !custom_fits(inputs.extra_sections[j].0.as_str(), &inputs.extra_sections[j].1) {
            return false;
        }
        j += 1;
    }
    match &inputs.trailing_zip {
        Some(z) => {
            if !matches!(target, Target::HtmlPlusTar) {
                let fits: bool = match &inputs.zip_section_name {
                    Some(n) => custom_fits(n.as_str(), z),
                    None => custom_fits("wah_polyglot_stage2_data", z),
                };
                if !fits {
                    return false;
                }
            }
        },
        None => {},
    }
    true
}

/// Assemble the layered module byte stream for the given target.
///
/// The hot-reload loader is experimental: selecting it without the
/// environment flag is a caller error, excluded by precondition; the caller
/// enforces it as the hard assertion the design demands.
pub fn assemble_module(inputs: &StageInputs, target: Target) -> (r: Result<Vec<u8>, ComposeError>)
    requires
        inputs.edit ==> inputs.experimental_allowed,
    ensures
        match r {
            Ok(out) => {
                &&& spec_wasm_sections(inputs.wasm@) matches Some(secs)
                &&& spec_sizes_ok(inputs, target, spec_wasm_sections(inputs.wasm@)->Some_0)
                &&& out@ == spec_assembled(inputs, target, spec_wasm_sections(inputs.wasm@)->Some_0)
            },
            Err(e) => match e {
                ComposeError::ModuleParse(_) => spec_wasm_sections(inputs.wasm@) is None,
                ComposeError::SectionTooLarge => {
                    &&& spec_wasm_sections(inputs.wasm@) matches Some(secs)
                    &&& !spec_sizes_ok(inputs, target, spec_wasm_sections(inputs.wasm@)->Some_0)
                },
                _ => false,
            },
        },
{
    let secs: Vec<SectionRef> = match parse_wasm_sections(&inputs.wasm) {
        Ok(s) => s,
        Err(msg) => {
            return Err(ComposeError::ModuleParse(msg));
        },
    };
    if !sizes_ok(inputs, target, &secs) {
        return Err(ComposeError::SectionTooLarge);
    }
    let mut m = module_new();
    module_add_custom(&mut m, "wah_polyglot_stage0", &inputs.stage0);
    let ghost pre1 = module_bytes(m);
    if inputs.edit {
        module_add_custom(&mut m, "wah_polyglot_stage1", &inputs.stage1_edit);
    } else {
        module_add_custom(&mut m, "wah_polyglot_stage1", &inputs.stage1);
    }
    assert(module_bytes(m) == pre1 + spec_custom_section(
        chars_bytes("wah_polyglot_stage1"@),
        spec_stage1_payload(inputs),
    ));
    match &inputs.index_html {
        Some(h) => {
            module_add_custom(&mut m, "wah_polyglot_stage1_html", h);
        },
        None => {},
    }
    module_add_custom(&mut m, "wah_polyglot_stage2", &inputs.stage2);
    let ghost pre_pass = module_bytes(m);
    let mut i: usize = 0;
    while i < secs.len()
        invariant
            i <= secs@.len(),
            spec_wasm_sections(inputs.wasm@) == Some(secs@),
            spec_sections_in_range(secs@, inputs.wasm@.len() as int),
            spec_sizes_ok(inputs, target, secs@),
            module_bytes(m) == pre_pass + spec_passthrough(secs@.take(i as int), inputs.wasm@),
        decreases secs@.len() - i,
    {
        let data = copy_range(&inputs.wasm, secs[i].start, secs[i].end);
        proof {
            assert(secs@.take(i + 1) =~= secs@.take(i as int).push(secs@[i as int]));
            lemma_passthrough_push(secs@.take(i as int), inputs.wasm@, secs@[i as int]);
        }
        module_add_raw(&mut m, secs[i].id, &data);
        proof {
            assert(module_bytes(m) =~= pre_pass + spec_passthrough(
                secs@.take(i + 1),
                inputs.wasm@,
            ));
        }
        i += 1;
    }
    proof {
        assert(secs@.take(secs@.len() as int) =~= secs@);
    }
    match &inputs.stage3 {
        Some(d) => {
            module_add_custom(&mut m, "wah_polyglot_stage3", d);
        },
        None => {},
    }
    let ghost pre_extra = module_bytes(m);
    let mut j: usize = 0;
    while j < inputs.extra_sections.len()
        invariant
            j <= inputs.extra_sections@.len(),
            spec_sizes_ok(inputs, target, secs@),
            module_bytes(m) == pre_extra + spec_extras(inputs.extra_sections@.take(j as int)),
        decreases inputs.extra_sections@.len() - j,
    {
        proof {
            assert(inputs.extra_sections@.take(j + 1) =~= inputs.extra_sections@.take(
                j as int,
            ).push(inputs.extra_sections@[j as int]));
            lemma_extras_push(
                inputs.extra_sections@.take(j as int),
                inputs.extra_sections@[j as int],
            );
        }
        module_add_custom(
            &mut m,
            inputs.extra_sections[j].0.as_str(),
            &inputs.extra_sections[j].1,
        );
        proof {
            assert(module_bytes(m) =~= pre_extra + spec_extras(
                inputs.extra_sections@.take(j + 1),
            ));
        }
        j += 1;
    }
    proof {
        assert(inputs.extra_sections@.take(inputs.extra_sections@.len() as int)
            =~= inputs.extra_sections@);
    }
    match &inputs.trailing_zip {
        Some(z) => {
            if !matches!(target, Target::HtmlPlusTar) {
                match &inputs.zip_section_name {
                    Some(n) => {
                        module_add_custom(&mut m, n.as_str(), z);
                    },
                    None => {
                        module_add_custom(&mut m, "wah_polyglot_stage2_data", z);
                    },
                }
            }
        },
        None => {},
    }
    let out = module_finish(m);
    proof {
        assert(out@ =~= spec_assembled(inputs, target, secs@));
    }
    Ok(out)
}

/// Copy `src[start..end]` into a fresh buffer.
pub fn copy_range(src: &Vec<u8>, start: usize, end: usize) -> (r: Vec<u8>)
    requires
        start <= end <= src@.len(),
    ensures
        r@ == src@.subrange(start as int, end as int),
{
    let mut r: Vec<u8> = Vec::new();
    let mut i: usize = start;
    while i < end
        invariant
            start <= i <= end <= src@.len(),
            r@ == src@.subrange(start as int, i as int),
        decreases end - i,
    {
        r.push(src[i]);
        proof {
            assert(r@ =~= src@.subrange(start as int, i + 1));
        }
        i += 1;
    }
    r
}

/// Append all of `src` to `out`.
fn append_bytes(out: &mut Vec<u8>, src: &Vec<u8>)
    ensures
        final(out)@ == old(out)@ + src@,
{
    let mut i: usize = 0;
    while i < src.len()
        invariant
            i <= src@.len(),
            out@ == old(out)@ + src@.take(i as int),
        decreases src@.len() - i,
    {
        out.push(src[i]);
        proof {
            assert(out@ =~= old(out)@ + src@.take(i + 1));
        }
        i += 1;
    }
    proof {
        assert(old(out)@ + src@.take(src@.len() as int) =~= old(out)@ + src@);
    }
}

/// `hay` with every occurrence of `pat` replaced by `rep`, scanning left to
/// right without rescanning replacements. An empty pattern replaces nothing.
pub open spec fn spec_replace(hay: Seq<u8>, pat: Seq<u8>, rep: Seq<u8>) -> Seq<u8>
    decreases hay.len(),
{
    if pat.len() == 0 || hay.len() < pat.len() {
        hay
    } else if hay.take(pat.len() as int) == pat {
        rep + spec_replace(hay.skip(pat.len() as int), pat, rep)
    } else {
        seq![hay[0]] + spec_replace(hay.drop_first(), pat, rep)
    }
}

fn bytes_match_at(hay: &Vec<u8>, i: usize, pat: &Vec<u8>) -> (b: bool)
    requires
        i + pat@.len() <= hay@.len(),
    ensures
        b == (hay@.subrange(i as int, i + pat@.len()) == pat@),
{
    let hay_len: usize = hay.len();
    let mut k: usize = 0;
    while k < pat.len()
        invariant
            hay_len == hay@.len(),
            i + pat@.len() <= hay@.len(),
            k <= pat@.len(),
            forall|t: int| 0 <= t < k ==> hay@[i + t] == pat@[t],
        decreases pat@.len() - k,
    {
        if hay[i + k] != pat[k] {
            proof {
                assert(hay@.subrange(i as int, i + pat@.len())[k as int] == hay@[i + k]);
            }
            return false;
        }
        k += 1;
    }
    proof {
        assert(hay@.subrange(i as int, i + pat@.len()) =~= pat@);
    }
    true
}

/// Replace every occurrence of `pat` in `hay` by `rep`.
pub fn replace_bytes(hay: &Vec<u8>, pat: &Vec<u8>, rep: &Vec<u8>) -> (r: Vec<u8>)
    ensures
        r@ == spec_replace(hay@, pat@, rep@),
{
    if pat.len() == 0 || hay.len() < pat.len() {
        return copy_range(hay, 0, hay.len());
    }
    let mut out: Vec<u8> = Vec::new();
    let mut i: usize = 0;
    proof {
        assert(hay@.skip(0) =~= hay@);
        assert(Seq::<u8>::empty() + spec_replace(hay@, pat@, rep@) =~= spec_replace(
            hay@,
            pat@,
            rep@,
        ));
    }
    while i <= hay.len() - pat.len()
        invariant
            1 <= pat@.len() <= hay@.len(),
            i <= hay@.len(),
            out@ + spec_replace(hay@.skip(i as int), pat@, rep@) == spec_replace(
                hay@,
                pat@,
                rep@,
            ),
        decreases hay@.len() - i,
    {
        if bytes_match_at(hay, i, pat) {
            proof {
                assert(hay@.skip(i as int).take(pat@.len() as int) =~= hay@.subrange(
                    i as int,
                    i + pat@.len(),
                ));
                assert(hay@.skip(i as int).skip(pat@.len() as int) =~= hay@.skip(
                    i + pat@.len(),
                ));
            }
            append_bytes(&mut out, rep);
            proof {
                assert(out@ + spec_replace(hay@.skip(i + pat@.len()), pat@, rep@)
                    =~= spec_replace(hay@, pat@, rep@));
            }
            i += pat.len();
        } else {
            proof {
                assert(hay@.skip(i as int).take(pat@.len() as int) =~= hay@.subrange(
                    i as int,
                    i + pat@.len(),
                ));
                assert(hay@.skip(i as int)[0] == hay@[i as int]);
                assert(hay@.skip(i as int).drop_first() =~= hay@.skip(i + 1));
            }
            out.push(hay[i]);
            proof {
                assert(out@ + spec_replace(hay@.skip(i + 1), pat@, rep@) =~= spec_replace(
                    hay@,
                    pat@,
                    rep@,
                ));
            }
            i += 1;
        }
    }
    while i < hay.len()
        invariant
            1 <= pat@.len(),
            i <= hay@.len(),
            hay@.len() - i < pat@.len(),
            out@ + spec_replace(hay@.skip(i as int), pat@, rep@) == spec_replace(
                hay@,
                pat@,
                rep@,
            ),
        decreases hay@.len() - i,
    {
        proof {
            assert(hay@.skip(i as int)[0] == hay@[i as int]);
            assert(hay@.skip(i as int) =~= seq![hay@[i as int]] + hay@.skip(i + 1));
        }
        out.push(hay[i]);
        proof {
            assert(out@ + spec_replace(hay@.skip(i + 1), pat@, rep@) =~= spec_replace(
                hay@,
                pat@,
                rep@,
            ));
        }
        i += 1;
    }
    proof {
        assert(hay@.skip(hay@.len() as int) =~= Seq::<u8>::empty());
        assert(out@ =~= spec_replace(hay@, pat@, rep@));
    }
    out
}

/// What base64's standard padded alphabet produces for the given bytes.
pub uninterp spec fn spec_base64(data: Seq<u8>) -> Seq<u8>;

/// The character count of the standard padded base64 encoding of `n` bytes:
/// four characters for every started group of three bytes.
pub open spec fn spec_b64_len(n: int) -> int {
    if n % 3 == 0 {
        4 * (n / 3)
    } else {
        4 * (n / 3) + 4
    }
}

/// Relies on base64::engine::general_purpose::STANDARD.encode: the standard
/// alphabet with padding, whose output length is four characters per started
/// three-byte group.
#[verifier::external_body]
fn base64_encode(data: &Vec<u8>) -> (r: Vec<u8>)
    requires
        (data@.len() as usize) / 3 * 4 + 4 <= usize::MAX,
    ensures
        r@ == spec_base64(data@),
        r@.len() == spec_b64_len(data@.len() as int),
{
    base64::Engine::encode(&base64::engine::general_purpose::STANDARD, data.as_slice()).into_bytes()
}

/// The data URI carrying the assembled module: a fixed prefix naming the
/// media type and encoding, then the standard base64 of the module bytes.
pub open spec fn spec_data_uri(module: Seq<u8>) -> Seq<u8> {
    chars_bytes("data:application/octet-stream;base64,"@) + spec_base64(module)
}

/// The data URI's character count: the 38-character prefix plus the base64
/// of the module bytes.
pub open spec fn spec_data_uri_len(n: int) -> int {
    38 + spec_b64_len(n)
}

/// The fetch-and-buffer loader used when the data URI stays small.
pub open spec fn spec_direct_loader() -> Seq<u8> {
    chars_bytes(
        "await (async function() {\n                    let doc = await fetch(URI_SRC);\n                    return await doc.arrayBuffer();\n                })()"@,
    )
}

/// The rendered standalone page: the template with the data URI substituted
/// at the designated point, then the selected loader snippet substituted.
pub open spec fn spec_standalone_html(
    template: Seq<u8>,
    module: Seq<u8>,
    loader: Seq<u8>,
) -> Seq<u8> {
    spec_replace(
        spec_replace(
            template,
            chars_bytes("__REPLACE_THIS_WITH_WASM_AS_A_DATA_URI__"@),
            spec_data_uri(module),
        ),
        chars_bytes("__REPLACE_THIS_WITH_URI_LOADER__"@),
        loader,
    )
}

/// Render the standalone-HTML target: base64-encode the assembled module
/// into a data URI, substitute it into the template, and select the loader
/// snippet by the URI's size; a URI of 2^31 or more characters is refused.
pub fn render_standalone_html(
    module: &Vec<u8>,
    template: &Vec<u8>,
    chunked_loader: &Vec<u8>,
) -> (r: Result<Vec<u8>, ComposeError>)
    ensures
        spec_data_uri_len(module@.len() as int) >= 0x80000000 <==> r == Result::<
            Vec<u8>,
            ComposeError,
        >::Err(ComposeError::Oversize),
        spec_data_uri_len(module@.len() as int) < 0x1000000 ==> (r matches Ok(out) && out@
            == spec_standalone_html(template@, module@, spec_direct_loader())),
        0x1000000 <= spec_data_uri_len(module@.len() as int) < 0x80000000 ==> (r matches Ok(out)
            && out@ == spec_standalone_html(template@, module@, chunked_loader@)),
{
    let n: usize = module.len();
    let enc: u128 = if n % 3 == 0 {
        4 * ((n as u128) / 3)
    } else {
        4 * ((n as u128) / 3) + 4
    };
    let uri_chars: u128 = 38 + enc;
    if uri_chars >= 0x80000000 {
        return Err(ComposeError::Oversize);
    }
    let b64 = base64_encode(module);
    let mut uri = "data:application/octet-stream;base64,".as_bytes_vec();
    append_bytes(&mut uri, &b64);
    let uri_pat = "__REPLACE_THIS_WITH_WASM_AS_A_DATA_URI__".as_bytes_vec();
    let loader_pat = "__REPLACE_THIS_WITH_URI_LOADER__".as_bytes_vec();
    let with_data = replace_bytes(template, &uri_pat, &uri);
    let direct = "await (async function() {\n                    let doc = await fetch(URI_SRC);\n                    return await doc.arrayBuffer();\n                })()".as_bytes_vec();
    let out = if uri_chars < 0x1000000 {
        replace_bytes(&with_data, &loader_pat, &direct)
    } else {
        replace_bytes(&with_data, &loader_pat, chunked_loader)
    };
    Ok(out)
}

/// The fragments the TAR encoder derives from the document head: a header
/// fragment, an extra fragment, and the count of template bytes the header
/// already absorbed.
pub struct TarInit {
    pub header: Vec<u8>,
    pub extra: Vec<u8>,
    pub consumed: usize,
}

/// One rendered TAR record: padding, header, file-record and data
/// fragments, concatenated in exactly this order.
pub struct TarRecord {
    pub padding: Vec<u8>,
    pub header: Vec<u8>,
    pub file: Vec<u8>,
    pub data: Vec<u8>,
}

/// The bytes of one record: padding, header, file-record, data, in order.
pub open spec fn spec_record_bytes(r: TarRecord) -> Seq<u8> {
    r.padding@ + r.header@ + r.file@ + r.data@
}

/// The bytes of a record sequence, in the order produced.
pub open spec fn spec_records_bytes(rs: Seq<TarRecord>) -> Seq<u8>
    decreases rs.len(),
{
    if rs.len() == 0 {
        Seq::empty()
    } else {
        spec_record_bytes(rs[0]) + spec_records_bytes(rs.drop_first())
    }
}

/// The HTML+TAR output: template bytes through the root opening tag, the
/// start-of-file fragments, the rest of the pre-anchor template region, the
/// entry records, the end-of-archive record, the template between the two
/// anchors, the extraction script in literal script tags, and the template
/// tail from the script anchor on.
pub open spec fn spec_tar_layout(
    text: Seq<u8>,
    ip: int,
    consumed: int,
    c_start: int,
    c_end: int,
    s_start: int,
    s_end: int,
    init: &TarInit,
    records: Seq<TarRecord>,
    eof: &TarRecord,
    script: Seq<u8>,
) -> Seq<u8> {
    text.take(ip) + init.header@ + init.extra@ + text.subrange(consumed, c_start)
        + spec_records_bytes(records) + spec_record_bytes(*eof) + text.subrange(c_end, s_start)
        + chars_bytes("<script>"@) + script + chars_bytes("</script>"@) + text.subrange(
        s_end,
        text.len() as int,
    )
}

/// All offsets the layout slices with lie inside the template and in order,
/// except for the anchor ordering, which is checked separately.
pub open spec fn spec_tar_spans_ok(doc: &SourceDocument, st: &Structure, init: &TarInit) -> bool {
    &&& doc.char_in_table(st.insertion_tag.start)
    &&& doc.char_in_table(st.insertion_tag.end)
    &&& doc.char_in_table(st.stage0.start)
    &&& doc.char_in_table(st.stage0.end)
    &&& st.html_insertion_point <= doc.text_view().len()
    &&& init.consumed <= doc.spec_char_offset(st.insertion_tag.start)
    &&& doc.spec_char_offset(st.insertion_tag.start) <= doc.text_view().len()
    &&& doc.spec_char_offset(st.insertion_tag.end) <= doc.text_view().len()
    &&& doc.spec_char_offset(st.stage0.start) <= doc.text_view().len()
    &&& doc.spec_char_offset(st.stage0.end) <= doc.text_view().len()
}

/// Splice TAR fragments and the extraction script into a resolved template.
///
/// Fails with `SpanOutOfRange` when the resolved offsets do not address the
/// template, and with `AnchorOrder` when the content anchor does not end
/// strictly before the script anchor starts; otherwise returns exactly the
/// layout above.
pub fn compose_html_tar(
    doc: &SourceDocument,
    st: &Structure,
    init: &TarInit,
    records: &Vec<TarRecord>,
    eof: &TarRecord,
    script: &Vec<u8>,
) -> (r: Result<Vec<u8>, ComposeError>)
    ensures
        !spec_tar_spans_ok(doc, st, init) ==> (r matches Err(e) && e is SpanOutOfRange),
        spec_tar_spans_ok(doc, st, init) && !(doc.spec_char_offset(st.insertion_tag.end)
            < doc.spec_char_offset(st.stage0.start)) ==> (r matches Err(e) && e is AnchorOrder),
        spec_tar_spans_ok(doc, st, init) && doc.spec_char_offset(st.insertion_tag.end)
            < doc.spec_char_offset(st.stage0.start) ==> (r matches Ok(out) && out@
            == spec_tar_layout(
            doc.text_view(),
            st.html_insertion_point as int,
            init.consumed as int,
            doc.spec_char_offset(st.insertion_tag.start),
            doc.spec_char_offset(st.insertion_tag.end),
            doc.spec_char_offset(st.stage0.start),
            doc.spec_char_offset(st.stage0.end),
            init,
            records@,
            eof,
            script@,
        )),
{
    let text = doc.text_bytes();
    let len: usize = text.len();
    if !(doc.char_ok(st.insertion_tag.start) && doc.char_ok(st.insertion_tag.end) && doc.char_ok(
        st.stage0.start,
    ) && doc.char_ok(st.stage0.end)) {
        return Err(ComposeError::SpanOutOfRange);
    }
    let where_to_insert = doc.span(st.insertion_tag);
    let where_to_enter = doc.span(st.stage0);
    if st.html_insertion_point > len || init.consumed > where_to_insert.start
        || where_to_insert.start > len || where_to_insert.end > len || where_to_enter.start > len
        || where_to_enter.end > len {
        return Err(ComposeError::SpanOutOfRange);
    }
    if !(where_to_insert.end < where_to_enter.start) {
        return Err(ComposeError::AnchorOrder);
    }
    let mut out = copy_range(text, 0, st.html_insertion_point);
    append_bytes(&mut out, &init.header);
    append_bytes(&mut out, &init.extra);
    let pre = copy_range(text, init.consumed, where_to_insert.start);
    append_bytes(&mut out, &pre);
    let ghost head_part = doc.text_view().take(st.html_insertion_point as int) + init.header@
        + init.extra@ + doc.text_view().subrange(
        init.consumed as int,
        where_to_insert.start as int,
    );
    proof {
        assert(out@ =~= head_part);
    }
    let mut i: usize = 0;
    while i < records.len()
        invariant
            i <= records@.len(),
            out@ == head_part + spec_records_bytes(records@.take(i as int)),
        decreases records@.len() - i,
    {
        proof {
            assert(records@.take(i + 1) =~= records@.take(i as int).push(records@[i as int]));
            lemma_records_push(records@.take(i as int), records@[i as int]);
        }
        append_bytes(&mut out, &records[i].padding);
        append_bytes(&mut out, &records[i].header);
        append_bytes(&mut out, &records[i].file);
        append_bytes(&mut out, &records[i].data);
        proof {
            assert(out@ =~= head_part + spec_records_bytes(records@.take(i + 1)));
        }
        i += 1;
    }
    proof {
        assert(records@.take(records@.len() as int) =~= records@);
    }
    append_bytes(&mut out, &eof.padding);
    append_bytes(&mut out, &eof.header);
    append_bytes(&mut out, &eof.file);
    append_bytes(&mut out, &eof.data);
    let mid = copy_range(text, where_to_insert.end, where_to_enter.start);
    append_bytes(&mut out, &mid);
    let open_tag = "<script>".as_bytes_vec();
    append_bytes(&mut out, &open_tag);
    append_bytes(&mut out, script);
    let close_tag = "</script>".as_bytes_vec();
    append_bytes(&mut out, &close_tag);
    let tail = copy_range(text, where_to_enter.end, len);
    append_bytes(&mut out, &tail);
    proof {
        assert(out@ =~= spec_tar_layout(
            doc.text_view(),
            st.html_insertion_point as int,
            init.consumed as int,
            doc.spec_char_offset(st.insertion_tag.start),
            doc.spec_char_offset(st.insertion_tag.end),
            doc.spec_char_offset(st.stage0.start),
            doc.spec_char_offset(st.stage0.end),
            init,
            records@,
            eof,
            script@,
        ));
    }
    Ok(out)
}

proof fn lemma_records_push(rs: Seq<TarRecord>, r: TarRecord)
    ensures
        spec_records_bytes(rs.push(r)) == spec_records_bytes(rs) + spec_record_bytes(r),
    decreases rs.len(),
{
    if rs.len() == 0 {
        reveal_with_fuel(spec_records_bytes, 3);
        assert(rs.push(r).drop_first() =~= Seq::<TarRecord>::empty());
        assert(spec_records_bytes(rs.push(r)) =~= spec_records_bytes(rs) + spec_record_bytes(r));
    } else {
        assert(rs.push(r).drop_first() =~= rs.drop_first().push(r));
        lemma_records_push(rs.drop_first(), r);
        assert(spec_records_bytes(rs.push(r)) =~= spec_records_bytes(rs) + spec_record_bytes(r));
    }
}

/// `n` doublings of 1.
pub open spec fn pow2i(k: nat) -> int
    decreases k,
{
    if k == 0 {
        1
    } else {
        2 * pow2i((k - 1) as nat)
    }
}

/// The floor of the base-2 logarithm, 0 below 2.
pub open spec fn spec_log2_floor(n: int) -> int
    decreases n,
{
    if n < 2 {
        0
    } else {
        1 + spec_log2_floor(n / 2)
    }
}

proof fn lemma_log2_window(n: int, k: nat)
    requires
        1 <= n,
        1 <= k,
    ensures
        spec_log2_floor(n) < k <==> n < pow2i(k),
    decreases n,
{
    if n < 2 {
        assert(pow2i(k) >= 2) by {
            assert(pow2i(k) == 2 * pow2i((k - 1) as nat));
            lemma_pow2i_pos((k - 1) as nat);
        }
    } else {
        if k == 1 {
            reveal_with_fuel(pow2i, 3);
            assert(pow2i(1nat) == 2);
            lemma_log2_nonneg(n / 2);
        } else {
            lemma_log2_window(n / 2, (k - 1) as nat);
            lemma_pow2i_pos((k - 1) as nat);
            assert(n / 2 < pow2i((k - 1) as nat) <==> n < pow2i(k)) by (nonlinear_arith)
                requires
                    n >= 2,
                    pow2i(k) == 2 * pow2i((k - 1) as nat),
                    pow2i((k - 1) as nat) >= 1,
            {
            }
        }
    }
}

proof fn lemma_log2_nonneg(n: int)
    ensures
        spec_log2_floor(n) >= 0,
    decreases n,
{
    if n >= 2 {
        lemma_log2_nonneg(n / 2);
    }
}

proof fn lemma_pow2i_pos(k: nat)
    ensures
        pow2i(k) >= 1,
    decreases k,
{
    if k > 0 {
        lemma_pow2i_pos((k - 1) as nat);
    }
}

/// Size classification of the standalone target, as the renderer applies
/// it: a data URI of length `n` takes the direct-fetch loader exactly when
/// the floor of log2(n) is below 24, the chunked loader exactly when it is
/// at least 24 and below 31, and is refused exactly when it is 31 or more.
pub proof fn lemma_data_uri_classification(n: int)
    requires
        1 <= n,
    ensures
        (spec_log2_floor(n) < 24 <==> n < 0x1000000),
        (spec_log2_floor(n) < 31 <==> n < 0x80000000),
{
    lemma_log2_window(n, 24);
    lemma_log2_window(n, 31);
    reveal_with_fuel(pow2i, 32);
    assert(pow2i(24nat) == 0x1000000);
    assert(pow2i(31nat) == 0x80000000);
}

proof fn lemma_passthrough_split(secs: Seq<SectionRef>, wasm: Seq<u8>, i: int)
    requires
        0 <= i < secs.len(),
    ensures
        spec_passthrough(secs, wasm) == spec_passthrough(secs.take(i), wasm) + spec_raw_section(
            secs[i].id,
            wasm.subrange(secs[i].start as int, secs[i].end as int),
        ) + spec_passthrough(secs.skip(i + 1), wasm),
    decreases i,
{
    if i == 0 {
        assert(secs.take(0) =~= Seq::<SectionRef>::empty());
        assert(secs.drop_first() =~= secs.skip(1));
        assert(spec_passthrough(secs, wasm) =~= spec_passthrough(secs.take(0), wasm)
            + spec_raw_section(
            secs[0].id,
            wasm.subrange(secs[0].start as int, secs[0].end as int),
        ) + spec_passthrough(secs.skip(1), wasm));
    } else {
        lemma_passthrough_split(secs.drop_first(), wasm, i - 1);
        assert(secs.drop_first().take(i - 1) =~= secs.take(i).drop_first());
        assert(secs.drop_first()[i - 1] == secs[i]);
        assert(secs.drop_first().skip(i) =~= secs.skip(i + 1));
        assert(spec_passthrough(secs, wasm) =~= spec_passthrough(secs.take(i), wasm)
            + spec_raw_section(
            secs[i].id,
            wasm.subrange(secs[i].start as int, secs[i].end as int),
        ) + spec_passthrough(secs.skip(i + 1), wasm));
    }
}

/// Passthrough is order-preserving and lossless: inside the passthrough
/// stream, section `i`'s contents reappear byte-for-byte, directly after
/// the encodings of the sections before it and its own id and length
/// prefix.
pub proof fn lemma_passthrough_lossless(secs: Seq<SectionRef>, wasm: Seq<u8>, i: int)
    requires
        0 <= i < secs.len(),
        secs[i].start <= secs[i].end <= wasm.len(),
    ensures
        ({
            let data = wasm.subrange(secs[i].start as int, secs[i].end as int);
            let pre: int = (spec_passthrough(secs.take(i), wasm).len() + 1 + leb128(
                data.len() as int,
            ).len()) as int;
            spec_passthrough(secs, wasm).subrange(pre, pre + data.len() as int) == data
        }),
{
    lemma_passthrough_split(secs, wasm, i);
    let data = wasm.subrange(secs[i].start as int, secs[i].end as int);
    let pre: int = (spec_passthrough(secs.take(i), wasm).len() + 1 + leb128(
        data.len() as int,
    ).len()) as int;
    assert(spec_passthrough(secs, wasm).subrange(pre, pre + data.len() as int) =~= data);
}

/// The HTML+TAR layout reproduces the template regions verbatim: the bytes
/// through the root opening tag as the output's prefix, the region between
/// the two anchors directly after the archive records, and the tail from
/// the script anchor's end as the output's suffix.
pub proof fn lemma_tar_layout_verbatim(
    text: Seq<u8>,
    ip: int,
    consumed: int,
    c_start: int,
    c_end: int,
    s_start: int,
    s_end: int,
    init: &TarInit,
    records: Seq<TarRecord>,
    eof: &TarRecord,
    script: Seq<u8>,
)
    requires
        0 <= ip <= text.len(),
        0 <= consumed <= c_start <= text.len(),
        0 <= c_end <= s_start <= text.len(),
        0 <= s_end <= text.len(),
    ensures
        ({
            let out = spec_tar_layout(
                text,
                ip,
                consumed,
                c_start,
                c_end,
                s_start,
                s_end,
                init,
                records,
                eof,
                script,
            );
            let mid = ip + init.header@.len() + init.extra@.len() + (c_start - consumed)
                + spec_records_bytes(records).len() + spec_record_bytes(*eof).len();
            &&& out.take(ip) == text.take(ip)
            &&& out.subrange(mid, mid + (s_start - c_end)) == text.subrange(c_end, s_start)
            &&& out.subrange(
                out.len() - (text.len() - s_end),
                out.len() as int,
            ) == text.subrange(s_end, text.len() as int)
        }),
{
    let out = spec_tar_layout(
        text,
        ip,
        consumed,
        c_start,
        c_end,
        s_start,
        s_end,
        init,
        records,
        eof,
        script,
    );
    let mid = ip + init.header@.len() + init.extra@.len() + (c_start - consumed)
        + spec_records_bytes(records).len() + spec_record_bytes(*eof).len();
    assert(out.take(ip) =~= text.take(ip));
    assert(out.subrange(mid, mid + (s_start - c_end)) =~= text.subrange(c_end, s_start));
    assert(out.subrange(out.len() - (text.len() - s_end), out.len() as int) =~= text.subrange(
        s_end,
        text.len() as int,
    ));
}

} // verus!

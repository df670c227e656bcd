//! Language profiles: per-language file extension, aggregator and manifest
//! file names, marker and header lines, and export-line rendering.

use vstd::prelude::*;
use vstd::string::StringSliceAdditionalSpecFns;
use crate::text::{
    bytes_eq, copy_bytes, find_byte, first_byte, lemma_first_byte_is, lines_view, push_all,
};

verus! {

/// The byte value of `.`.
pub const DOT: u8 = 46;

/// The byte value of `/`.
pub const SLASH: u8 = 47;

/// Byte string of a literal.
pub fn bytes_of(s: &str) -> (r: Vec<u8>)
    ensures
        r@ == s.spec_bytes(),
{
    vstd::slice::slice_to_vec(s.as_bytes())
}

/// The language tags a profile exists for.
#[derive(Debug, Clone, Copy, PartialEq, Eq, Structural)]
pub enum LangTag {
    Rust,
    Go,
    Python,
    Javascript,
    Typescript,
    Markdown,
    AnyLang,
}

/// The profile a language tag resolves to, if any.
pub open spec fn tag_of(lang: Seq<u8>) -> Option<LangTag> {
    if lang == "rust".spec_bytes() {
        Some(LangTag::Rust)
    } else if lang == "go".spec_bytes() {
        Some(LangTag::Go)
    } else if lang == "python".spec_bytes() {
        Some(LangTag::Python)
    } else if lang == "javascript".spec_bytes() {
        Some(LangTag::Javascript)
    } else if lang == "typescript".spec_bytes() {
        Some(LangTag::Typescript)
    } else if lang == "markdown".spec_bytes() {
        Some(LangTag::Markdown)
    } else if lang == "any".spec_bytes() {
        Some(LangTag::AnyLang)
    } else {
        None
    }
}

/// The extension appended to a file name that carries none.
pub open spec fn ext_of(tag: LangTag) -> Seq<u8> {
    match tag {
        LangTag::Rust => "rs".spec_bytes(),
        LangTag::Go => "go".spec_bytes(),
        LangTag::Python => "py".spec_bytes(),
        LangTag::Javascript => "js".spec_bytes(),
        LangTag::Typescript => "ts".spec_bytes(),
        LangTag::Markdown => "md".spec_bytes(),
        LangTag::AnyLang => "txt".spec_bytes(),
    }
}

/// The extension used for a language tag, `txt` when the tag is unknown.
pub open spec fn ext_for_name(lang: Seq<u8>) -> Seq<u8> {
    match tag_of(lang) {
        Some(tag) => ext_of(tag),
        None => "txt".spec_bytes(),
    }
}

/// The conventional aggregator file name of each directory level, for
/// languages that keep one.
pub open spec fn agg_of(tag: LangTag) -> Option<Seq<u8>> {
    match tag {
        LangTag::Rust => Some("mod.rs".spec_bytes()),
        LangTag::Python => Some("__init__.py".spec_bytes()),
        LangTag::Javascript => Some("index.js".spec_bytes()),
        LangTag::Typescript => Some("index.ts".spec_bytes()),
        _ => None,
    }
}

/// The conventional project manifest file name, for languages that keep one.
pub open spec fn man_of(tag: LangTag) -> Option<Seq<u8>> {
    match tag {
        LangTag::Rust => Some("Cargo.toml".spec_bytes()),
        LangTag::Go => Some("go.mod".spec_bytes()),
        LangTag::Python => Some("pyproject.toml".spec_bytes()),
        LangTag::Javascript => Some("package.json".spec_bytes()),
        LangTag::Typescript => Some("package.json".spec_bytes()),
        _ => None,
    }
}

/// Whether several projects of this language share one workspace manifest.
pub open spec fn ws_of(tag: LangTag) -> bool {
    tag is Rust
}

/// The line-comment prefix used for markers and headers.
pub open spec fn comment_of(tag: LangTag) -> Seq<u8> {
    match tag {
        LangTag::Python => "#".spec_bytes(),
        _ => "//".spec_bytes(),
    }
}

pub open spec fn start_marker_of(tag: LangTag) -> Seq<u8> {
    comment_of(tag) + " start auto exported by moli.".spec_bytes()
}

pub open spec fn end_marker_of(tag: LangTag) -> Seq<u8> {
    comment_of(tag) + " end auto exported by moli.".spec_bytes()
}

pub open spec fn header_of(tag: LangTag) -> Seq<Seq<u8>> {
    seq![comment_of(tag) + " This file is managed by moli.".spec_bytes()]
}

/// The mathematical value of a visibility hint.
pub open spec fn vis_view(v: Option<Vec<u8>>) -> Option<Seq<u8>> {
    match v {
        Some(x) => Some(x@),
        None => None,
    }
}

/// A name up to its first `.`; the whole name when it has none.
pub open spec fn stem_of(name: Seq<u8>) -> Seq<u8> {
    name.take(first_byte(name, DOT))
}

/// One rendered export line for a child of an aggregator's directory.
pub open spec fn export_line_of(
    tag: LangTag,
    is_dir: bool,
    name: Seq<u8>,
    vis: Option<Seq<u8>>,
) -> Seq<u8> {
    let stem = if is_dir {
        name
    } else {
        stem_of(name)
    };
    match tag {
        LangTag::Rust => (match vis {
            Some(v) => v + " ".spec_bytes(),
            None => "pub ".spec_bytes(),
        }) + "mod ".spec_bytes() + stem + ";".spec_bytes(),
        LangTag::Python => "from . import ".spec_bytes() + stem,
        LangTag::Javascript => "export * from './".spec_bytes() + stem + "';".spec_bytes(),
        LangTag::Typescript => "export * from './".spec_bytes() + stem + "';".spec_bytes(),
        _ => Seq::empty(),
    }
}

/// The minimal manifest written once for a fresh project.
pub open spec fn manifest_lines_of(tag: LangTag, pname: Seq<u8>) -> Seq<Seq<u8>> {
    match tag {
        LangTag::Rust => seq![
            "[package]".spec_bytes(),
            "name = \"".spec_bytes() + pname + "\"".spec_bytes(),
            "version = \"0.1.0\"".spec_bytes(),
            "edition = \"2021\"".spec_bytes(),
        ],
        LangTag::Go => seq!["module ".spec_bytes() + pname],
        LangTag::Python => seq![
            "[project]".spec_bytes(),
            "name = \"".spec_bytes() + pname + "\"".spec_bytes(),
            "version = \"0.1.0\"".spec_bytes(),
        ],
        LangTag::Javascript => seq![
            "{".spec_bytes(),
            "  \"name\": \"".spec_bytes() + pname + "\",".spec_bytes(),
            "  \"version\": \"0.1.0\"".spec_bytes(),
            "}".spec_bytes(),
        ],
        LangTag::Typescript => seq![
            "{".spec_bytes(),
            "  \"name\": \"".spec_bytes() + pname + "\",".spec_bytes(),
            "  \"version\": \"0.1.0\"".spec_bytes(),
            "}".spec_bytes(),
        ],
        _ => Seq::empty(),
    }
}

/// The root workspace manifest listing each member project's relative path.
pub open spec fn workspace_lines_of(members: Seq<Seq<u8>>) -> Seq<Seq<u8>> {
    seq!["[workspace]".spec_bytes(), "members = [".spec_bytes()] + Seq::new(
        members.len(),
        |i: int| "  \"".spec_bytes() + members[i] + "\",".spec_bytes(),
    ) + seq!["]".spec_bytes()]
}

/// Resolves a language tag; `None` is the `UnsupportedLanguage` case.
pub fn tag_for(lang: &Vec<u8>) -> (r: Option<LangTag>)
    ensures
        r == tag_of(lang@),
{
    if bytes_eq(lang, &bytes_of("rust")) {
        Some(LangTag::Rust)
    } else if bytes_eq(lang, &bytes_of("go")) {
        Some(LangTag::Go)
    } else if bytes_eq(lang, &bytes_of("python")) {
        Some(LangTag::Python)
    } else if bytes_eq(lang, &bytes_of("javascript")) {
        Some(LangTag::Javascript)
    } else if bytes_eq(lang, &bytes_of("typescript")) {
        Some(LangTag::Typescript)
    } else if bytes_eq(lang, &bytes_of("markdown")) {
        Some(LangTag::Markdown)
    } else if bytes_eq(lang, &bytes_of("any")) {
        Some(LangTag::AnyLang)
    } else {
        None
    }
}

/// The extension used for this language, `txt` for an unknown tag.
pub fn extension_for(lang: &Vec<u8>) -> (r: Vec<u8>)
    ensures
        r@ == ext_for_name(lang@),
{
    match tag_for(lang) {
        Some(LangTag::Rust) => bytes_of("rs"),
        Some(LangTag::Go) => bytes_of("go"),
        Some(LangTag::Python) => bytes_of("py"),
        Some(LangTag::Javascript) => bytes_of("js"),
        Some(LangTag::Typescript) => bytes_of("ts"),
        Some(LangTag::Markdown) => bytes_of("md"),
        Some(LangTag::AnyLang) => bytes_of("txt"),
        None => bytes_of("txt"),
    }
}

/// The aggregator file name, for languages that keep one.
pub fn aggregator_name(tag: LangTag) -> (r: Option<Vec<u8>>)
    ensures
        match r {
            Some(n) => agg_of(tag) == Some(n@),
            None => agg_of(tag) is None,
        },
{
    match tag {
        LangTag::Rust => Some(bytes_of("mod.rs")),
        LangTag::Python => Some(bytes_of("__init__.py")),
        LangTag::Javascript => Some(bytes_of("index.js")),
        LangTag::Typescript => Some(bytes_of("index.ts")),
        _ => None,
    }
}

/// The manifest file name, for languages that keep one.
pub fn manifest_name(tag: LangTag) -> (r: Option<Vec<u8>>)
    ensures
        match r {
            Some(n) => man_of(tag) == Some(n@),
            None => man_of(tag) is None,
        },
{
    match tag {
        LangTag::Rust => Some(bytes_of("Cargo.toml")),
        LangTag::Go => Some(bytes_of("go.mod")),
        LangTag::Python => Some(bytes_of("pyproject.toml")),
        LangTag::Javascript => Some(bytes_of("package.json")),
        LangTag::Typescript => Some(bytes_of("package.json")),
        _ => None,
    }
}

pub fn workspace_capable(tag: LangTag) -> (r: bool)
    ensures
        r == ws_of(tag),
{
    match tag {
        LangTag::Rust => true,
        _ => false,
    }
}

fn comment_prefix(tag: LangTag) -> (r: Vec<u8>)
    ensures
        r@ == comment_of(tag),
{
    match tag {
        LangTag::Python => bytes_of("#"),
        _ => bytes_of("//"),
    }
}

pub fn start_marker(tag: LangTag) -> (r: Vec<u8>)
    ensures
        r@ == start_marker_of(tag),
{
    let mut r = comment_prefix(tag);
    push_all(&mut r, &bytes_of(" start auto exported by moli."));
    r
}

pub fn end_marker(tag: LangTag) -> (r: Vec<u8>)
    ensures
        r@ == end_marker_of(tag),
{
    let mut r = comment_prefix(tag);
    push_all(&mut r, &bytes_of(" end auto exported by moli."));
    r
}

pub fn header_lines(tag: LangTag) -> (r: Vec<Vec<u8>>)
    ensures
        lines_view(r@) == header_of(tag),
{
    let mut line = comment_prefix(tag);
    push_all(&mut line, &bytes_of(" This file is managed by moli."));
    let mut r: Vec<Vec<u8>> = Vec::new();
    r.push(line);
    proof {
        assert(lines_view(r@) =~= header_of(tag));
    }
    r
}

/// A name up to its first `.`.
pub fn stem(name: &Vec<u8>) -> (r: Vec<u8>)
    ensures
        r@ == stem_of(name@),
{
    match find_byte(name, DOT) {
        Some(i) => {
            proof {
                lemma_first_byte_is(name@, DOT, i as int);
            }
            let mut r: Vec<u8> = Vec::new();
            crate::text::push_byte_range(&mut r, name, 0, i);
            proof {
                assert(r@ =~= stem_of(name@));
            }
            r
        },
        None => {
            proof {
                lemma_first_byte_is(name@, DOT, name@.len() as int);
                assert(name@.take(name@.len() as int) =~= name@);
            }
            copy_bytes(name)
        },
    }
}

/// One rendered export line for a child entry.
pub fn render_export(tag: LangTag, is_dir: bool, name: &Vec<u8>, vis: &Option<Vec<u8>>) -> (r: Vec<
    u8,
>)
    ensures
        r@ == export_line_of(tag, is_dir, name@, vis_view(*vis)),
{
    let the_stem: Vec<u8> = if is_dir {
        copy_bytes(name)
    } else {
        stem(name)
    };
    match tag {
        LangTag::Rust => {
            let mut r: Vec<u8> = match vis {
                Some(v) => {
                    let mut r = copy_bytes(v);
                    push_all(&mut r, &bytes_of(" "));
                    r
                },
                None => bytes_of("pub "),
            };
            push_all(&mut r, &bytes_of("mod "));
            push_all(&mut r, &the_stem);
            push_all(&mut r, &bytes_of(";"));
            proof {
                assert(r@ =~= export_line_of(tag, is_dir, name@, vis_view(*vis)));
            }
            r
        },
        LangTag::Python => {
            let mut r = bytes_of("from . import ");
            push_all(&mut r, &the_stem);
            proof {
                assert(r@ =~= export_line_of(tag, is_dir, name@, vis_view(*vis)));
            }
            r
        },
        LangTag::Javascript | LangTag::Typescript => {
            let mut r = bytes_of("export * from './");
            push_all(&mut r, &the_stem);
            push_all(&mut r, &bytes_of("';"));
            proof {
                assert(r@ =~= export_line_of(tag, is_dir, name@, vis_view(*vis)));
            }
            r
        },
        _ => {
            let r: Vec<u8> = Vec::new();
            proof {
                assert(r@ =~= Seq::<u8>::empty());
            }
            r
        },
    }
}

/// The minimal manifest content for a fresh project.
pub fn manifest_lines(tag: LangTag, pname: &Vec<u8>) -> (r: Vec<Vec<u8>>)
    ensures
        lines_view(r@) == manifest_lines_of(tag, pname@),
{
    let mut r: Vec<Vec<u8>> = Vec::new();
    match tag {
        LangTag::Rust => {
            r.push(bytes_of("[package]"));
            let mut n = bytes_of("name = \"");
            push_all(&mut n, pname);
            push_all(&mut n, &bytes_of("\""));
            r.push(n);
            r.push(bytes_of("version = \"0.1.0\""));
            r.push(bytes_of("edition = \"2021\""));
        },
        LangTag::Go => {
            let mut n = bytes_of("module ");
            push_all(&mut n, pname);
            r.push(n);
        },
        LangTag::Python => {
            r.push(bytes_of("[project]"));
            let mut n = bytes_of("name = \"");
            push_all(&mut n, pname);
            push_all(&mut n, &bytes_of("\""));
            r.push(n);
            r.push(bytes_of("version = \"0.1.0\""));
        },
        LangTag::Javascript | LangTag::Typescript => {
            r.push(bytes_of("{"));
            let mut n = bytes_of("  \"name\": \"");
            push_all(&mut n, pname);
            push_all(&mut n, &bytes_of("\","));
            r.push(n);
            r.push(bytes_of("  \"version\": \"0.1.0\""));
            r.push(bytes_of("}"));
        },
        _ => {},
    }
    proof {
        assert(lines_view(r@) =~= manifest_lines_of(tag, pname@));
    }
    r
}

/// The workspace manifest listing each member's relative path.
pub fn workspace_lines(members: &Vec<Vec<u8>>) -> (r: Vec<Vec<u8>>)
    ensures
        lines_view(r@) == workspace_lines_of(lines_view(members@)),
{
    let ghost mv = lines_view(members@);
    let mut r: Vec<Vec<u8>> = Vec::new();
    r.push(bytes_of("[workspace]"));
    r.push(bytes_of("members = ["));
    let mut i: usize = 0;
    while i < members.len()
        invariant
            0 <= i <= members@.len(),
            mv == lines_view(members@),
            lines_view(r@) =~= seq!["[workspace]".spec_bytes(), "members = [".spec_bytes()]
                + Seq::new(i as nat, |k: int| "  \"".spec_bytes() + mv[k] + "\",".spec_bytes()),
        decreases members@.len() - i,
    {
        let ghost prev = r@;
        let mut line = bytes_of("  \"");
        push_all(&mut line, &members[i]);
        push_all(&mut line, &bytes_of("\","));
        r.push(line);
        proof {
            crate::text::lemma_lines_view_push(prev, r@[prev.len() as int]);
            assert(lines_view(r@) =~= seq![
                "[workspace]".spec_bytes(),
                "members = [".spec_bytes(),
            ] + Seq::new((i + 1) as nat, |k: int| "  \"".spec_bytes() + mv[k] + "\",".spec_bytes()));
        }
        i = i + 1;
    }
    let ghost prev = r@;
    r.push(bytes_of("]"));
    proof {
        crate::text::lemma_lines_view_push(prev, r@[prev.len() as int]);
        assert(lines_view(r@) =~= workspace_lines_of(mv));
    }
    r
}

/// Joined path: `base/name`, or `name` alone at the top level.
pub open spec fn join_of(base: Seq<u8>, name: Seq<u8>) -> Seq<u8> {
    if base.len() == 0 {
        name
    } else {
        base + seq![SLASH] + name
    }
}

pub fn join(base: &Vec<u8>, name: &Vec<u8>) -> (r: Vec<u8>)
    ensures
        r@ == join_of(base@, name@),
{
    if base.len() == 0 {
        copy_bytes(name)
    } else {
        let mut r = copy_bytes(base);
        r.push(SLASH);
        push_all(&mut r, name);
        proof {
            assert(r@ =~= join_of(base@, name@));
        }
        r
    }
}

} // verus!

//! Seeds a fresh configuration file: the conventional main-file name per
//! language, and the initial configuration a new project starts from.

use vstd::prelude::*;
use vstd::string::StringSliceAdditionalSpecFns;
use crate::lang::bytes_of;
use crate::text::{bytes_eq, lines_view, push_all, push_all_lines, push_lines_range};

verus! {

/// `p` is a prefix of `s`.
pub open spec fn starts_with(s: Seq<u8>, p: Seq<u8>) -> bool {
    s.len() >= p.len() && s.subrange(0, p.len() as int) == p
}

fn begins_with(s: &Vec<u8>, p: &Vec<u8>) -> (r: bool)
    ensures
        r == starts_with(s@, p@),
{
    if s.len() < p.len() {
        return false;
    }
    let mut i: usize = 0;
    while i < p.len()
        invariant
            0 <= i <= p.len(),
            s@.len() >= p@.len(),
            forall|j: int| 0 <= j < i ==> s@[j] == p@[j],
        decreases p.len() - i,
    {
        if s[i] != p[i] {
            assert(s@.subrange(0, p@.len() as int)[i as int] != p@[i as int]);
            return false;
        }
        i = i + 1;
    }
    assert(s@.subrange(0, p@.len() as int) =~= p@);
    true
}

/// A declaration of a root project: a name line followed by the root flag.
pub open spec fn root_pair_at(ls: Seq<Seq<u8>>, i: int) -> bool {
    &&& 0 <= i
    &&& i + 1 < ls.len()
    &&& starts_with(ls[i], "- name: ".spec_bytes())
    &&& ls[i + 1] == "  root: true".spec_bytes()
}

/// Index of the first root-project declaration; at least `ls.len() - 1`
/// when there is none.
pub open spec fn first_root_pair(ls: Seq<Seq<u8>>) -> int
    decreases ls.len(),
{
    if ls.len() < 2 {
        ls.len() as int
    } else if root_pair_at(ls, 0) {
        0
    } else {
        1 + first_root_pair(ls.skip(1))
    }
}

proof fn lemma_frp_found(ls: Seq<Seq<u8>>, k: int)
    requires
        root_pair_at(ls, k),
        forall|j: int| 0 <= j < k ==> !root_pair_at(ls, j),
    ensures
        first_root_pair(ls) == k,
    decreases ls.len(),
{
    assert(forall|j: int| #![trigger ls.skip(1)[j]] 0 <= j && j + 1 < ls.skip(1).len() ==> (
    root_pair_at(ls.skip(1), j) == root_pair_at(ls, j + 1)));
    if k == 0 {
    } else {
        assert(!root_pair_at(ls, 0));
        lemma_frp_found(ls.skip(1), k - 1);
    }
}

proof fn lemma_frp_none(ls: Seq<Seq<u8>>)
    requires
        forall|j: int| 0 <= j ==> !root_pair_at(ls, j),
    ensures
        first_root_pair(ls) + 1 >= ls.len(),
    decreases ls.len(),
{
    if ls.len() >= 2 {
        assert(forall|j: int| #![trigger ls.skip(1)[j]] 0 <= j && j + 1 < ls.skip(1).len() ==> (
        root_pair_at(ls.skip(1), j) == root_pair_at(ls, j + 1)));
        assert(forall|j: int| 0 <= j ==> !root_pair_at(ls.skip(1), j));
        lemma_frp_none(ls.skip(1));
    }
}

/// The configuration with its first root project renamed to `.` and its
/// root flag dropped; unchanged when no root project is declared.
pub open spec fn demote_root_spec(ls: Seq<Seq<u8>>) -> Seq<Seq<u8>> {
    let i = first_root_pair(ls);
    if i + 1 < ls.len() {
        ls.take(i) + seq!["- name: .".spec_bytes()] + ls.skip(i + 2)
    } else {
        ls
    }
}

/// Renames the first root project to the current directory and drops its
/// root flag, so a new project can stand beside it.
pub fn replace_first_project_name_with_current_dir(content: &Vec<Vec<u8>>) -> (r: Vec<Vec<u8>>)
    ensures
        lines_view(r@) == demote_root_spec(lines_view(content@)),
{
    let ghost ls = lines_view(content@);
    let name_prefix = bytes_of("- name: ");
    let root_line = bytes_of("  root: true");
    let mut i: usize = 0;
    while i < content.len() && i + 1 < content.len()
        invariant
            0 <= i <= content@.len(),
            ls == lines_view(content@),
            forall|j: int| 0 <= j < i ==> !root_pair_at(ls, j),
            name_prefix@ == "- name: ".spec_bytes(),
            root_line@ == "  root: true".spec_bytes(),
        decreases content@.len() - i,
    {
        if begins_with(&content[i], &name_prefix) && bytes_eq(&content[i + 1], &root_line) {
            proof {
                assert(root_pair_at(ls, i as int));
                lemma_frp_found(ls, i as int);
            }
            let mut r: Vec<Vec<u8>> = Vec::new();
            push_lines_range(&mut r, content, 0, i);
            let ghost mid = r@;
            r.push(bytes_of("- name: ."));
            proof {
                crate::text::lemma_lines_view_push(mid, r@[mid.len() as int]);
            }
            push_lines_range(&mut r, content, i + 2, content.len());
            proof {
                assert(ls.subrange(0, i as int) =~= ls.take(i as int));
                assert(ls.subrange(i as int + 2, ls.len() as int) =~= ls.skip(i as int + 2));
                assert(lines_view(r@) =~= demote_root_spec(ls));
            }
            return r;
        }
        i = i + 1;
    }
    proof {
        assert(forall|j: int| 0 <= j ==> !root_pair_at(ls, j));
        lemma_frp_none(ls);
    }
    let r = crate::fs::copy_lines(content);
    r
}

/// The conventional first file of a project in this language.
pub open spec fn main_file_of(lang: Seq<u8>, is_root: bool) -> Seq<u8> {
    if lang == "rust".spec_bytes() {
        if is_root {
            "main".spec_bytes()
        } else {
            "lib".spec_bytes()
        }
    } else if lang == "typescript".spec_bytes() || lang == "javascript".spec_bytes() {
        "index".spec_bytes()
    } else if lang == "any".spec_bytes() {
        "README.md".spec_bytes()
    } else {
        "main".spec_bytes()
    }
}

/// Languages whose seed configuration starts under a `src` directory.
pub open spec fn uses_src_dir(lang: Seq<u8>) -> bool {
    !(lang == "go".spec_bytes() || lang == "any".spec_bytes())
}

/// The seed configuration for one fresh root project.
pub open spec fn new_config_lines(name: Seq<u8>, lang: Seq<u8>) -> Seq<Seq<u8>> {
    seq![
        "- name: ".spec_bytes() + name,
        "  root: true".spec_bytes(),
        "  lang: ".spec_bytes() + lang,
    ] + (if uses_src_dir(lang) {
        seq![
            "  tree:".spec_bytes(),
            "    - name: src".spec_bytes(),
            "      file:".spec_bytes(),
            "        - name: ".spec_bytes() + main_file_of(lang, true),
        ]
    } else {
        seq!["  file:".spec_bytes(), "    - name: ".spec_bytes() + main_file_of(lang, true)]
    })
}

/// The conventional first file name for a language.
pub fn get_main_file_name(language: &Vec<u8>, is_root: bool) -> (r: Vec<u8>)
    ensures
        r@ == main_file_of(language@, is_root),
{
    if crate::text::bytes_eq(language, &bytes_of("rust")) {
        if is_root {
            bytes_of("main")
        } else {
            bytes_of("lib")
        }
    } else if crate::text::bytes_eq(language, &bytes_of("typescript")) || crate::text::bytes_eq(
        language,
        &bytes_of("javascript"),
    ) {
        bytes_of("index")
    } else if crate::text::bytes_eq(language, &bytes_of("any")) {
        bytes_of("README.md")
    } else {
        bytes_of("main")
    }
}

/// The lines of a fresh configuration declaring one root project.
pub fn generate_new_moli_yml(project_name: &Vec<u8>, language: &Vec<u8>) -> (r: Vec<Vec<u8>>)
    ensures
        lines_view(r@) == new_config_lines(project_name@, language@),
{
    let mut r: Vec<Vec<u8>> = Vec::new();
    let mut l1 = bytes_of("- name: ");
    push_all(&mut l1, project_name);
    r.push(l1);
    r.push(bytes_of("  root: true"));
    let mut l3 = bytes_of("  lang: ");
    push_all(&mut l3, language);
    r.push(l3);
    let src_dir = !(crate::text::bytes_eq(language, &bytes_of("go")) || crate::text::bytes_eq(
        language,
        &bytes_of("any"),
    ));
    let main_file = get_main_file_name(language, true);
    if src_dir {
        r.push(bytes_of("  tree:"));
        r.push(bytes_of("    - name: src"));
        r.push(bytes_of("      file:"));
        let mut l7 = bytes_of("        - name: ");
        push_all(&mut l7, &main_file);
        r.push(l7);
    } else {
        r.push(bytes_of("  file:"));
        let mut l5 = bytes_of("    - name: ");
        push_all(&mut l5, &main_file);
        r.push(l5);
    }
    proof {
        assert(lines_view(r@) =~= new_config_lines(project_name@, language@));
    }
    r
}

/// The lines a further, non-root project adds to an existing configuration,
/// after one separating blank line.
pub open spec fn appended_project_lines(name: Seq<u8>, lang: Seq<u8>) -> Seq<Seq<u8>> {
    seq![
        "".spec_bytes(),
        "- name: ".spec_bytes() + name,
        "  lang: ".spec_bytes() + lang,
    ] + (if uses_src_dir(lang) {
        seq![
            "  tree:".spec_bytes(),
            "    - name: src".spec_bytes(),
            "      file:".spec_bytes(),
            "        - name: ".spec_bytes() + main_file_of(lang, false),
        ]
    } else {
        seq!["  file:".spec_bytes(), "    - name: ".spec_bytes() + main_file_of(lang, false)]
    })
}

/// An existing configuration with its first root project demoted to the
/// current directory and a fresh non-root project appended.
pub open spec fn append_config_spec(
    existing: Seq<Seq<u8>>,
    name: Seq<u8>,
    lang: Seq<u8>,
) -> Seq<Seq<u8>> {
    demote_root_spec(existing) + appended_project_lines(name, lang)
}

/// Appends a fresh project to an existing configuration's lines.
pub fn append_to_existing_moli_yml(
    existing: &Vec<Vec<u8>>,
    project_name: &Vec<u8>,
    language: &Vec<u8>,
) -> (r: Vec<Vec<u8>>)
    ensures
        lines_view(r@) == append_config_spec(lines_view(existing@), project_name@, language@),
{
    let mut r = replace_first_project_name_with_current_dir(existing);
    let ghost demoted = lines_view(r@);
    let mut tail: Vec<Vec<u8>> = Vec::new();
    tail.push(bytes_of(""));
    let mut l1 = bytes_of("- name: ");
    push_all(&mut l1, project_name);
    tail.push(l1);
    let mut l2 = bytes_of("  lang: ");
    push_all(&mut l2, language);
    tail.push(l2);
    let src_dir = !(bytes_eq(language, &bytes_of("go")) || bytes_eq(language, &bytes_of("any")));
    let main_file = get_main_file_name(language, false);
    if src_dir {
        tail.push(bytes_of("  tree:"));
        tail.push(bytes_of("    - name: src"));
        tail.push(bytes_of("      file:"));
        let mut l3 = bytes_of("        - name: ");
        push_all(&mut l3, &main_file);
        tail.push(l3);
    } else {
        tail.push(bytes_of("  file:"));
        let mut l3 = bytes_of("    - name: ");
        push_all(&mut l3, &main_file);
        tail.push(l3);
    }
    proof {
        assert(lines_view(tail@) =~= appended_project_lines(project_name@, language@));
    }
    push_all_lines(&mut r, &tail);
    proof {
        assert(lines_view(r@) =~= append_config_spec(
            lines_view(existing@),
            project_name@,
            language@,
        ));
    }
    r
}

} // verus!

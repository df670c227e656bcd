//! Walks the declared module tree and derives the write plan: one directory
//! per module, one protected file per declared code file, one aggregator per
//! directory level (post-order, so a parent's aggregator always reflects its
//! whole subtree), one manifest per project, and at most one workspace
//! manifest across all projects.

use vstd::prelude::*;
use vstd::string::StringSliceAdditionalSpecFns;
use crate::errors::GenError;
use crate::lang::{
    agg_of, aggregator_name, bytes_of, end_marker, end_marker_of, export_line_of, header_lines,
    header_of, join, join_of, man_of, manifest_lines, manifest_lines_of, manifest_name,
    render_export, start_marker, start_marker_of, tag_for, tag_of, vis_view, workspace_capable,
    workspace_lines, workspace_lines_of, ws_of, LangTag,
};
use crate::models::{filename_spec, CodeFile, Module, MoliConfig, Project};
use crate::plan::{plan_view, Action, ActionV};
use crate::text::{copy_bytes, lemma_lines_view_push, lines_view};

verus! {

/// The aggregator body: one export line per child module, then one per
/// child file, in declaration order.
pub open spec fn child_lines(tag: LangTag, ms: Seq<Module>, fs: Seq<CodeFile>) -> Seq<Seq<u8>> {
    Seq::new(ms.len(), |i: int| export_line_of(tag, true, ms[i].name@, vis_view(ms[i].vis)))
        + Seq::new(fs.len(), |i: int| export_line_of(tag, false, fs[i].name@, vis_view(fs[i].vis)))
}

/// One protected write per declared file of a directory.
pub open spec fn files_actions(dir: Seq<u8>, fs: Seq<CodeFile>, lang: Seq<u8>) -> Seq<ActionV> {
    Seq::new(
        fs.len(),
        |i: int| ActionV::WriteProtected { path: join_of(dir, filename_spec(fs[i].name@, lang)) },
    )
}

/// The aggregator write of a directory, for languages that keep one.
pub open spec fn agg_actions(
    dir: Seq<u8>,
    tag: LangTag,
    ms: Seq<Module>,
    fs: Seq<CodeFile>,
) -> Seq<ActionV> {
    match agg_of(tag) {
        Some(aname) => seq![
            ActionV::WriteAggregator {
                path: join_of(dir, aname),
                header: header_of(tag),
                start_marker: start_marker_of(tag),
                end_marker: end_marker_of(tag),
                body: child_lines(tag, ms, fs),
            },
        ],
        None => Seq::empty(),
    }
}

/// All actions of one module: its directory, its subtree, its files, and
/// finally its own aggregator.
pub open spec fn module_actions(base: Seq<u8>, m: Module, tag: LangTag, lang: Seq<u8>) -> Seq<
    ActionV,
>
    decreases m,
{
    let dir = join_of(base, m.name@);
    seq![ActionV::EnsureDir { path: dir }] + modules_actions(dir, m.tree@, tag, lang)
        + files_actions(dir, m.file@, lang) + agg_actions(dir, tag, m.tree@, m.file@)
}

pub open spec fn modules_actions(base: Seq<u8>, ms: Seq<Module>, tag: LangTag, lang: Seq<u8>) -> Seq<
    ActionV,
>
    decreases ms,
{
    if ms.len() == 0 {
        Seq::empty()
    } else {
        modules_actions(base, ms.drop_last(), tag, lang) + module_actions(
            base,
            ms.last(),
            tag,
            lang,
        )
    }
}

/// The manifest file name of a profile, or empty where it keeps none.
pub open spec fn manifest_or_empty(tag: LangTag) -> Seq<u8> {
    match man_of(tag) {
        Some(n) => n,
        None => Seq::empty(),
    }
}

/// All actions of one project: its directory when it is not the root
/// project, its whole tree, its top-level files, and its manifest.
pub open spec fn project_actions(p: Project) -> Seq<ActionV> {
    match tag_of(p.lang@) {
        None => Seq::empty(),
        Some(tag) => {
            let base: Seq<u8> = if p.root {
                Seq::empty()
            } else {
                p.name@
            };
            (if p.root {
                Seq::<ActionV>::empty()
            } else {
                seq![ActionV::EnsureDir { path: p.name@ }]
            }) + modules_actions(base, p.tree@, tag, p.lang@) + files_actions(
                base,
                p.file@,
                p.lang@,
            ) + (match man_of(tag) {
                Some(mn) => seq![
                    ActionV::WriteManifest {
                        path: join_of(base, mn),
                        content: manifest_lines_of(tag, p.name@),
                    },
                ],
                None => Seq::<ActionV>::empty(),
            })
        },
    }
}

pub open spec fn projects_actions(ps: Seq<Project>) -> Seq<ActionV>
    decreases ps.len(),
{
    if ps.len() == 0 {
        Seq::empty()
    } else {
        projects_actions(ps.drop_last()) + project_actions(ps.last())
    }
}

/// Whether a project takes part in the shared workspace.
pub open spec fn is_ws_project(p: Project) -> bool {
    match tag_of(p.lang@) {
        Some(t) => ws_of(t),
        None => false,
    }
}

/// A member project's relative path in the workspace manifest.
pub open spec fn member_path(p: Project) -> Seq<u8> {
    if p.root {
        ".".spec_bytes()
    } else {
        p.name@
    }
}

pub open spec fn ws_members(ps: Seq<Project>) -> Seq<Seq<u8>>
    decreases ps.len(),
{
    if ps.len() == 0 {
        Seq::empty()
    } else {
        ws_members(ps.drop_last()) + (if is_ws_project(ps.last()) {
            seq![member_path(ps.last())]
        } else {
            Seq::<Seq<u8>>::empty()
        })
    }
}

/// The workspace manifest write: only when several projects exist and at
/// least two share the workspace-capable language.
pub open spec fn workspace_actions(ps: Seq<Project>) -> Seq<ActionV> {
    if ps.len() > 1 && ws_members(ps).len() >= 2 {
        seq![
            ActionV::WriteManifest {
                path: manifest_or_empty(LangTag::Rust),
                content: workspace_lines_of(ws_members(ps)),
            },
        ]
    } else {
        Seq::empty()
    }
}

/// The whole plan a configuration derives to.
pub open spec fn config_plan(c: MoliConfig) -> Seq<ActionV> {
    projects_actions(c.projects@) + workspace_actions(c.projects@)
}

fn push_action(plan: &mut Vec<Action>, a: Action)
    ensures
        plan_view(final(plan)@) == plan_view(old(plan)@).push(a@),
{
    let ghost prev = plan@;
    plan.push(a);
    proof {
        assert(plan_view(plan@) =~= plan_view(prev).push(plan@[prev.len() as int]@));
    }
}

/// Renders the aggregator body for a directory's children.
fn aggregator_body(tag: LangTag, ms: &Vec<Module>, fs: &Vec<CodeFile>) -> (r: Vec<Vec<u8>>)
    ensures
        lines_view(r@) == child_lines(tag, ms@, fs@),
{
    let mut r: Vec<Vec<u8>> = Vec::new();
    let mut i: usize = 0;
    while i < ms.len()
        invariant
            0 <= i <= ms@.len(),
            lines_view(r@) =~= Seq::new(
                i as nat,
                |k: int| export_line_of(tag, true, ms@[k].name@, vis_view(ms@[k].vis)),
            ),
        decreases ms@.len() - i,
    {
        let ghost prev = r@;
        let line = render_export(tag, true, &ms[i].name, &ms[i].vis);
        r.push(line);
        proof {
            lemma_lines_view_push(prev, r@[prev.len() as int]);
            assert(lines_view(r@) =~= Seq::new(
                (i + 1) as nat,
                |k: int| export_line_of(tag, true, ms@[k].name@, vis_view(ms@[k].vis)),
            ));
        }
        i = i + 1;
    }
    let ghost mpart = lines_view(r@);
    let mut j: usize = 0;
    while j < fs.len()
        invariant
            0 <= j <= fs@.len(),
            mpart == Seq::new(
                ms@.len(),
                |k: int| export_line_of(tag, true, ms@[k].name@, vis_view(ms@[k].vis)),
            ),
            lines_view(r@) =~= mpart + Seq::new(
                j as nat,
                |k: int| export_line_of(tag, false, fs@[k].name@, vis_view(fs@[k].vis)),
            ),
        decreases fs@.len() - j,
    {
        let ghost prev = r@;
        let line = render_export(tag, false, &fs[j].name, &fs[j].vis);
        r.push(line);
        proof {
            lemma_lines_view_push(prev, r@[prev.len() as int]);
            assert(lines_view(r@) =~= mpart + Seq::new(
                (j + 1) as nat,
                |k: int| export_line_of(tag, false, fs@[k].name@, vis_view(fs@[k].vis)),
            ));
        }
        j = j + 1;
    }
    proof {
        assert(lines_view(r@) =~= child_lines(tag, ms@, fs@));
    }
    r
}

/// Emits the protected write of every declared file of a directory.
fn walk_files(plan: &mut Vec<Action>, dir: &Vec<u8>, fs: &Vec<CodeFile>, lang: &Vec<u8>)
    ensures
        plan_view(final(plan)@) == plan_view(old(plan)@) + files_actions(dir@, fs@, lang@),
{
    let ghost orig = plan_view(old(plan)@);
    let mut i: usize = 0;
    while i < fs.len()
        invariant
            0 <= i <= fs@.len(),
            orig == plan_view(old(plan)@),
            plan_view(plan@) =~= orig + files_actions(dir@, fs@, lang@).take(i as int),
        decreases fs@.len() - i,
    {
        let fname = fs[i].filename_with_extension(lang);
        push_action(plan, Action::WriteProtected { path: join(dir, &fname) });
        proof {
            assert(plan_view(plan@) =~= orig + files_actions(dir@, fs@, lang@).take(i as int + 1));
        }
        i = i + 1;
    }
    proof {
        assert(files_actions(dir@, fs@, lang@).take(fs@.len() as int) =~= files_actions(
            dir@,
            fs@,
            lang@,
        ));
        assert(plan_view(plan@) =~= orig + files_actions(dir@, fs@, lang@));
    }
}

/// Emits all actions of one module, in the order the plan fixes.
fn walk_module(plan: &mut Vec<Action>, base: &Vec<u8>, m: &Module, tag: LangTag, lang: &Vec<u8>)
    ensures
        plan_view(final(plan)@) == plan_view(old(plan)@) + module_actions(base@, *m, tag, lang@),
    decreases *m,
{
    let ghost orig = plan_view(old(plan)@);
    let dir = join(base, &m.name);
    push_action(plan, Action::EnsureDir { path: copy_bytes(&dir) });
    let mut i: usize = 0;
    while i < m.tree.len()
        invariant
            0 <= i <= m.tree@.len(),
            orig == plan_view(old(plan)@),
            dir@ == join_of(base@, m.name@),
            plan_view(plan@) =~= orig + seq![ActionV::EnsureDir { path: dir@ }] + modules_actions(
                dir@,
                m.tree@.take(i as int),
                tag,
                lang@,
            ),
        decreases m.tree@.len() - i,
    {
        proof {
            assert(decreases_to!(*m => m.tree@[i as int]));
        }
        walk_module(plan, &dir, &m.tree[i], tag, lang);
        proof {
            assert(m.tree@.take(i as int + 1).drop_last() =~= m.tree@.take(i as int));
            assert(m.tree@.take(i as int + 1).last() == m.tree@[i as int]);
            assert(plan_view(plan@) =~= orig + seq![ActionV::EnsureDir { path: dir@ }]
                + modules_actions(dir@, m.tree@.take(i as int + 1), tag, lang@));
        }
        i = i + 1;
    }
    proof {
        assert(m.tree@.take(m.tree@.len() as int) =~= m.tree@);
    }
    walk_files(plan, &dir, &m.file, lang);
    match aggregator_name(tag) {
        Some(aname) => {
            let body = aggregator_body(tag, &m.tree, &m.file);
            push_action(
                plan,
                Action::WriteAggregator {
                    path: join(&dir, &aname),
                    header: header_lines(tag),
                    start_marker: start_marker(tag),
                    end_marker: end_marker(tag),
                    body,
                },
            );
        },
        None => {},
    }
    proof {
        assert(plan_view(plan@) =~= orig + module_actions(base@, *m, tag, lang@));
    }
}

/// Emits all actions of one project.
fn walk_project(plan: &mut Vec<Action>, p: &Project, tag: LangTag)
    requires
        tag_of(p.lang@) == Some(tag),
    ensures
        plan_view(final(plan)@) == plan_view(old(plan)@) + project_actions(*p),
{
    let ghost orig = plan_view(old(plan)@);
    let base: Vec<u8> = if p.root {
        Vec::new()
    } else {
        copy_bytes(&p.name)
    };
    let ghost basev: Seq<u8> = if p.root {
        Seq::<u8>::empty()
    } else {
        p.name@
    };
    proof {
        assert(base@ =~= basev);
    }
    if !p.root {
        push_action(plan, Action::EnsureDir { path: copy_bytes(&p.name) });
    }
    let ghost head = plan_view(plan@);
    proof {
        assert(head =~= orig + (if p.root {
            Seq::<ActionV>::empty()
        } else {
            seq![ActionV::EnsureDir { path: p.name@ }]
        }));
    }
    let mut i: usize = 0;
    while i < p.tree.len()
        invariant
            0 <= i <= p.tree@.len(),
            tag_of(p.lang@) == Some(tag),
            base@ == basev,
            plan_view(plan@) =~= head + modules_actions(basev, p.tree@.take(i as int), tag, p.lang@),
        decreases p.tree@.len() - i,
    {
        walk_module(plan, &base, &p.tree[i], tag, &p.lang);
        proof {
            assert(p.tree@.take(i as int + 1).drop_last() =~= p.tree@.take(i as int));
            assert(p.tree@.take(i as int + 1).last() == p.tree@[i as int]);
            assert(plan_view(plan@) =~= head + modules_actions(
                basev,
                p.tree@.take(i as int + 1),
                tag,
                p.lang@,
            ));
        }
        i = i + 1;
    }
    proof {
        assert(p.tree@.take(p.tree@.len() as int) =~= p.tree@);
    }
    walk_files(plan, &base, &p.file, &p.lang);
    match manifest_name(tag) {
        Some(mn) => {
            push_action(
                plan,
                Action::WriteManifest {
                    path: join(&base, &mn),
                    content: manifest_lines(tag, &p.name),
                },
            );
        },
        None => {},
    }
    proof {
        assert(plan_view(plan@) =~= orig + project_actions(*p));
    }
}

/// Derives the whole plan, after checking every project's language tag
/// up front so a bad tag never leaves partial output.
pub fn build_plan(c: &MoliConfig) -> (r: Result<Vec<Action>, GenError>)
    ensures
        match r {
            Ok(plan) => (forall|i: int|
                0 <= i < c.projects@.len() ==> tag_of(#[trigger] c.projects@[i].lang@) is Some)
                && plan_view(plan@) == config_plan(*c),
            Err(e) => (exists|i: int|
                0 <= i < c.projects@.len() && tag_of(#[trigger] c.projects@[i].lang@) is None)
                && e@ is UnsupportedLanguage,
        },
{
    let mut i: usize = 0;
    while i < c.projects.len()
        invariant
            0 <= i <= c.projects@.len(),
            forall|j: int| 0 <= j < i ==> tag_of(#[trigger] c.projects@[j].lang@) is Some,
        decreases c.projects@.len() - i,
    {
        if tag_for(&c.projects[i].lang).is_none() {
            return Err(GenError::UnsupportedLanguage(copy_bytes(&c.projects[i].lang)));
        }
        i = i + 1;
    }
    let mut plan: Vec<Action> = Vec::new();
    proof {
        assert(plan_view(plan@) =~= Seq::<ActionV>::empty());
    }
    let mut k: usize = 0;
    while k < c.projects.len()
        invariant
            0 <= k <= c.projects@.len(),
            forall|j: int|
                0 <= j < c.projects@.len() ==> tag_of(#[trigger] c.projects@[j].lang@) is Some,
            plan_view(plan@) =~= projects_actions(c.projects@.take(k as int)),
        decreases c.projects@.len() - k,
    {
        match tag_for(&c.projects[k].lang) {
            Some(tag) => {
                walk_project(&mut plan, &c.projects[k], tag);
            },
            None => {
                proof {
                    assert(false);
                }
            },
        }
        proof {
            assert(c.projects@.take(k as int + 1).drop_last() =~= c.projects@.take(k as int));
            assert(c.projects@.take(k as int + 1).last() == c.projects@[k as int]);
            assert(plan_view(plan@) =~= projects_actions(c.projects@.take(k as int + 1)));
        }
        k = k + 1;
    }
    proof {
        assert(c.projects@.take(c.projects@.len() as int) =~= c.projects@);
    }
    // Workspace pass: collect member paths of workspace-capable projects.
    let mut members: Vec<Vec<u8>> = Vec::new();
    let mut w: usize = 0;
    while w < c.projects.len()
        invariant
            0 <= w <= c.projects@.len(),
            plan_view(plan@) == projects_actions(c.projects@),
            lines_view(members@) =~= ws_members(c.projects@.take(w as int)),
        decreases c.projects@.len() - w,
    {
        let ghost prev = members@;
        match tag_for(&c.projects[w].lang) {
            Some(tag) => {
                if workspace_capable(tag) {
                    let mp = if c.projects[w].root {
                        bytes_of(".")
                    } else {
                        copy_bytes(&c.projects[w].name)
                    };
                    members.push(mp);
                    proof {
                        lemma_lines_view_push(prev, members@[prev.len() as int]);
                    }
                }
            },
            None => {},
        }
        proof {
            assert(c.projects@.take(w as int + 1).drop_last() =~= c.projects@.take(w as int));
            assert(c.projects@.take(w as int + 1).last() == c.projects@[w as int]);
            assert(lines_view(members@) =~= ws_members(c.projects@.take(w as int + 1)));
        }
        w = w + 1;
    }
    proof {
        assert(c.projects@.take(c.projects@.len() as int) =~= c.projects@);
    }
    if c.projects.len() > 1 && members.len() >= 2 {
        push_action(
            &mut plan,
            Action::WriteManifest {
                path: bytes_of("Cargo.toml"),
                content: workspace_lines(&members),
            },
        );
    }
    proof {
        assert(plan_view(plan@) =~= config_plan(*c));
    }
    Ok(plan)
}

} // verus!

//! The one entry point of the engine: validate a configuration, derive its
//! plan, and apply it to the filesystem model — plus the proofs that a run
//! is idempotent, never touches protected files, and converges every
//! aggregator to exactly its declared exports.

use vstd::prelude::*;
use crate::errors::{ErrV, GenError};
use crate::fs::{EntryV, FsState};
use crate::lang::tag_of;
use crate::models::{filename_spec, CodeFile, Module, MoliConfig};
use crate::plan::{
    apply_plan, apply_plan_spec, is_aggregator, lemma_clean_wf, lemma_plan_aggregator_region,
    lemma_plan_idempotent, lemma_plan_protects, plan_clean, plan_view, target, wf_action, Action,
    ActionV,
};
use crate::splice::{has_one_pair, line_absent, marker_region};
use crate::text::{bytes_eq, copy_bytes, lemma_count_zero, lines_view};
use crate::walker::{build_plan, config_plan};

verus! {

/// Every project's language tag has a profile.
pub open spec fn langs_ok(c: MoliConfig) -> bool {
    forall|i: int| 0 <= i < c.projects@.len() ==> tag_of(#[trigger] c.projects@[i].lang@) is Some
}

/// The declared names of one directory level, modules then files.
pub open spec fn sibling_names(ms: Seq<Module>, fs: Seq<CodeFile>) -> Seq<Seq<u8>> {
    Seq::new(ms.len(), |i: int| ms[i].name@) + Seq::new(fs.len(), |i: int| fs[i].name@)
}

pub open spec fn distinct_lines(s: Seq<Seq<u8>>) -> bool {
    forall|k: int, l: int| 0 <= k < l < s.len() ==> s[k] != s[l]
}

/// No module name or resolved file name of one level takes the language's
/// aggregator file name for itself: that entry is the engine's to manage.
pub open spec fn level_clear(ms: Seq<Module>, fs: Seq<CodeFile>, lang: Seq<u8>) -> bool {
    match tag_of(lang) {
        None => true,
        Some(tag) => match crate::lang::agg_of(tag) {
            None => true,
            Some(an) => (forall|i: int| 0 <= i < ms.len() ==> (#[trigger] ms[i]).name@ != an)
                && (forall|i: int|
                0 <= i < fs.len() ==> filename_spec((#[trigger] fs[i]).name@, lang) != an),
        },
    }
}

/// Sibling names are unique and clear of reserved names, at this level and
/// below it.
pub open spec fn module_names_ok(m: Module, lang: Seq<u8>) -> bool
    decreases m,
{
    distinct_lines(sibling_names(m.tree@, m.file@)) && level_clear(m.tree@, m.file@, lang)
        && modules_names_ok(m.tree@, lang)
}

pub open spec fn modules_names_ok(ms: Seq<Module>, lang: Seq<u8>) -> bool
    decreases ms,
{
    if ms.len() == 0 {
        true
    } else {
        modules_names_ok(ms.drop_last(), lang) && module_names_ok(ms.last(), lang)
    }
}

/// Sibling names are unique and clear of reserved names at every level of
/// every project.
pub open spec fn config_names_ok(c: MoliConfig) -> bool {
    forall|i: int|
        0 <= i < c.projects@.len() ==> (distinct_lines(
            sibling_names(
                (#[trigger] c.projects@[i]).tree@,
                c.projects@[i].file@,
            ),
        ) && level_clear(c.projects@[i].tree@, c.projects@[i].file@, c.projects@[i].lang@)
            && modules_names_ok(c.projects@[i].tree@, c.projects@[i].lang@))
}

/// A configuration on which generation succeeds for every filesystem state
/// that holds no conflicting entry kinds or damaged markers.
pub open spec fn generation_ready(c: MoliConfig) -> bool {
    langs_ok(c) && config_names_ok(c) && plan_clean(config_plan(c))
}

fn line_absent_check(ls: &Vec<Vec<u8>>, x: &Vec<u8>) -> (r: bool)
    ensures
        r == line_absent(lines_view(ls@), x@),
{
    let mut i: usize = 0;
    while i < ls.len()
        invariant
            0 <= i <= ls@.len(),
            forall|j: int| 0 <= j < i ==> lines_view(ls@)[j] != x@,
        decreases ls@.len() - i,
    {
        if bytes_eq(&ls[i], x) {
            proof {
                assert(lines_view(ls@)[i as int] == x@);
                lemma_count_zero(lines_view(ls@), x@);
            }
            return false;
        }
        i = i + 1;
    }
    proof {
        lemma_count_zero(lines_view(ls@), x@);
    }
    true
}

/// The path an action writes to.
fn target_of(a: &Action) -> (r: &Vec<u8>)
    ensures
        r@ == target(a@),
{
    match a {
        Action::EnsureDir { path } => path,
        Action::WriteProtected { path } => path,
        Action::WriteAggregator { path, .. } => path,
        Action::WriteManifest { path, .. } => path,
    }
}

fn agg_target(a: &Action) -> (r: Option<&Vec<u8>>)
    ensures
        match r {
            Some(p) => is_aggregator(a@) && p@ == target(a@),
            None => !is_aggregator(a@),
        },
{
    match a {
        Action::WriteAggregator { path, .. } => Some(path),
        _ => None,
    }
}

fn action_clean_check(a: &Action) -> (r: bool)
    ensures
        r == wf_action(a@),
{
    match a {
        Action::WriteAggregator { path, header, start_marker, end_marker, body } => {
            if bytes_eq(start_marker, end_marker) {
                false
            } else {
                line_absent_check(header, start_marker) && line_absent_check(header, end_marker)
                    && line_absent_check(body, start_marker) && line_absent_check(body, end_marker)
            }
        },
        _ => true,
    }
}

/// Decides [`plan_clean`]; a duplicate or marker-tainted aggregator target
/// comes back as the offending path.
fn check_plan_clean(plan: &Vec<Action>) -> (r: Option<Vec<u8>>)
    ensures
        match r {
            None => plan_clean(plan_view(plan@)),
            Some(_) => !plan_clean(plan_view(plan@)),
        },
{
    let ghost pv = plan_view(plan@);
    let mut k: usize = 0;
    while k < plan.len()
        invariant
            0 <= k <= plan@.len(),
            pv == plan_view(plan@),
            forall|j: int| 0 <= j < k ==> wf_action(#[trigger] pv[j]),
        decreases plan@.len() - k,
    {
        if !action_clean_check(&plan[k]) {
            proof {
                assert(pv[k as int] == plan@[k as int]@);
                assert(!wf_action(pv[k as int]));
                assert(!plan_clean(pv));
            }
            return Some(copy_bytes(target_of(&plan[k])));
        }
        k = k + 1;
    }
    let mut a: usize = 0;
    while a < plan.len()
        invariant
            0 <= a <= plan@.len(),
            pv == plan_view(plan@),
            forall|j: int| 0 <= j < pv.len() ==> wf_action(#[trigger] pv[j]),
            forall|x: int, y: int|
                0 <= x < y < pv.len() && x < a && is_aggregator(#[trigger] pv[x]) && is_aggregator(
                    #[trigger] pv[y],
                ) ==> target(pv[x]) != target(pv[y]),
        decreases plan@.len() - a,
    {
        match agg_target(&plan[a]) {
            Some(pa) => {
                let mut b: usize = a + 1;
                while b < plan.len()
                    invariant
                        0 <= a < b <= plan@.len(),
                        pv == plan_view(plan@),
                        is_aggregator(pv[a as int]),
                        pa@ == target(pv[a as int]),
                        forall|y: int|
                            a < y < b && is_aggregator(#[trigger] pv[y]) ==> target(pv[a as int])
                                != target(pv[y]),
                    decreases plan@.len() - b,
                {
                    match agg_target(&plan[b]) {
                        Some(pb) => {
                            if bytes_eq(pa, pb) {
                                proof {
                                    assert(pv[b as int] == plan@[b as int]@);
                                    assert(is_aggregator(pv[a as int]) && is_aggregator(
                                        pv[b as int],
                                    ) && target(pv[a as int]) == target(pv[b as int]));
                                    assert(!plan_clean(pv));
                                }
                                return Some(copy_bytes(pb));
                            }
                        },
                        None => {},
                    }
                    b = b + 1;
                }
            },
            None => {},
        }
        a = a + 1;
    }
    None
}

/// First duplicated sibling name of one directory level, if any.
fn check_level_names(ms: &Vec<Module>, fs: &Vec<CodeFile>) -> (r: Option<Vec<u8>>)
    ensures
        match r {
            None => distinct_lines(sibling_names(ms@, fs@)),
            Some(_) => !distinct_lines(sibling_names(ms@, fs@)),
        },
{
    let ghost names = sibling_names(ms@, fs@);
    let mut all: Vec<Vec<u8>> = Vec::new();
    let mut i: usize = 0;
    while i < ms.len()
        invariant
            0 <= i <= ms@.len(),
            lines_view(all@) =~= names.take(i as int),
            names == sibling_names(ms@, fs@),
        decreases ms@.len() - i,
    {
        let ghost prev = all@;
        all.push(copy_bytes(&ms[i].name));
        proof {
            crate::text::lemma_lines_view_push(prev, all@[prev.len() as int]);
            assert(lines_view(all@) =~= names.take(i as int + 1));
        }
        i = i + 1;
    }
    let mut j: usize = 0;
    while j < fs.len()
        invariant
            0 <= j <= fs@.len(),
            lines_view(all@) =~= names.take(ms@.len() as int + j as int),
            names == sibling_names(ms@, fs@),
        decreases fs@.len() - j,
    {
        let ghost prev = all@;
        all.push(copy_bytes(&fs[j].name));
        proof {
            crate::text::lemma_lines_view_push(prev, all@[prev.len() as int]);
            assert(lines_view(all@) =~= names.take(ms@.len() as int + j as int + 1));
        }
        j = j + 1;
    }
    proof {
        assert(names.take(names.len() as int) =~= names);
        assert(lines_view(all@) =~= names);
    }
    let mut x: usize = 0;
    while x < all.len()
        invariant
            0 <= x <= all@.len(),
            names == sibling_names(ms@, fs@),
            lines_view(all@) == names,
            forall|k: int, l: int| 0 <= k < l < all@.len() && k < x ==> names[k] != names[l],
        decreases all@.len() - x,
    {
        let mut y: usize = x + 1;
        while y < all.len()
            invariant
                0 <= x < y <= all@.len(),
                names == sibling_names(ms@, fs@),
                lines_view(all@) == names,
                forall|l: int| x < l < y ==> names[x as int] != names[l],
            decreases all@.len() - y,
        {
            if bytes_eq(&all[x], &all[y]) {
                proof {
                    assert(names[x as int] == all@[x as int]@);
                    assert(names[y as int] == all@[y as int]@);
                    assert(names[x as int] == names[y as int]);
                    assert(0 <= x < y < names.len());
                    assert(!distinct_lines(names));
                    assert(!distinct_lines(sibling_names(ms@, fs@)));
                }
                return Some(copy_bytes(&all[y]));
            }
            y = y + 1;
        }
        x = x + 1;
    }
    None
}

/// First name of one level that takes the language's aggregator file name.
fn check_level_clear(ms: &Vec<Module>, fs: &Vec<CodeFile>, lang: &Vec<u8>) -> (r: Option<Vec<u8>>)
    ensures
        match r {
            None => level_clear(ms@, fs@, lang@),
            Some(_) => !level_clear(ms@, fs@, lang@),
        },
{
    let an = match crate::lang::tag_for(lang) {
        None => {
            return None;
        },
        Some(tag) => match crate::lang::aggregator_name(tag) {
            None => {
                return None;
            },
            Some(an) => an,
        },
    };
    let mut i: usize = 0;
    while i < ms.len()
        invariant
            0 <= i <= ms@.len(),
            crate::lang::tag_of(lang@) is Some,
            crate::lang::agg_of(crate::lang::tag_of(lang@).unwrap()) == Some(an@),
            forall|j: int| 0 <= j < i ==> (#[trigger] ms@[j]).name@ != an@,
        decreases ms@.len() - i,
    {
        if bytes_eq(&ms[i].name, &an) {
            return Some(copy_bytes(&an));
        }
        i = i + 1;
    }
    let mut j: usize = 0;
    while j < fs.len()
        invariant
            0 <= j <= fs@.len(),
            crate::lang::tag_of(lang@) is Some,
            crate::lang::agg_of(crate::lang::tag_of(lang@).unwrap()) == Some(an@),
            forall|k: int| 0 <= k < j ==> filename_spec((#[trigger] fs@[k]).name@, lang@) != an@,
        decreases fs@.len() - j,
    {
        let resolved = fs[j].filename_with_extension(lang);
        if bytes_eq(&resolved, &an) {
            return Some(resolved);
        }
        j = j + 1;
    }
    None
}

/// First duplicated or reserved sibling name anywhere under one module.
fn check_module_names(m: &Module, lang: &Vec<u8>) -> (r: Option<Vec<u8>>)
    ensures
        match r {
            None => module_names_ok(*m, lang@),
            Some(_) => !module_names_ok(*m, lang@),
        },
    decreases *m,
{
    match check_level_names(&m.tree, &m.file) {
        Some(n) => {
            return Some(n);
        },
        None => {},
    }
    match check_level_clear(&m.tree, &m.file, lang) {
        Some(n) => {
            return Some(n);
        },
        None => {},
    }
    let mut i: usize = 0;
    while i < m.tree.len()
        invariant
            0 <= i <= m.tree@.len(),
            distinct_lines(sibling_names(m.tree@, m.file@)),
            level_clear(m.tree@, m.file@, lang@),
            modules_names_ok(m.tree@.take(i as int), lang@),
        decreases m.tree@.len() - i,
    {
        proof {
            assert(decreases_to!(*m => m.tree@[i as int]));
        }
        match check_module_names(&m.tree[i], lang) {
            Some(n) => {
                proof {
                    if modules_names_ok(m.tree@, lang@) {
                        lemma_modules_names_ok_index(m.tree@, i as int, lang@);
                    }
                }
                return Some(n);
            },
            None => {},
        }
        proof {
            assert(m.tree@.take(i as int + 1).drop_last() =~= m.tree@.take(i as int));
            assert(m.tree@.take(i as int + 1).last() == m.tree@[i as int]);
        }
        i = i + 1;
    }
    proof {
        assert(m.tree@.take(m.tree@.len() as int) =~= m.tree@);
    }
    None
}

/// A duplicated name inside `ms[i]` breaks `modules_names_ok(ms, lang)`.
proof fn lemma_modules_names_ok_index(ms: Seq<Module>, i: int, lang: Seq<u8>)
    requires
        0 <= i < ms.len(),
        modules_names_ok(ms, lang),
    ensures
        module_names_ok(ms[i], lang),
    decreases ms.len(),
{
    if i == ms.len() - 1 {
    } else {
        assert(ms.drop_last()[i] == ms[i]);
        lemma_modules_names_ok_index(ms.drop_last(), i, lang);
    }
}

/// First duplicated or reserved sibling name anywhere in the configuration.
fn check_config_names(c: &MoliConfig) -> (r: Option<Vec<u8>>)
    ensures
        match r {
            None => config_names_ok(*c),
            Some(_) => !config_names_ok(*c),
        },
{
    let mut i: usize = 0;
    while i < c.projects.len()
        invariant
            0 <= i <= c.projects@.len(),
            forall|j: int|
                0 <= j < i ==> (distinct_lines(
                    sibling_names(
                        (#[trigger] c.projects@[j]).tree@,
                        c.projects@[j].file@,
                    ),
                ) && level_clear(c.projects@[j].tree@, c.projects@[j].file@, c.projects@[j].lang@)
                    && modules_names_ok(c.projects@[j].tree@, c.projects@[j].lang@)),
        decreases c.projects@.len() - i,
    {
        match check_level_names(&c.projects[i].tree, &c.projects[i].file) {
            Some(n) => {
                return Some(n);
            },
            None => {},
        }
        match check_level_clear(&c.projects[i].tree, &c.projects[i].file, &c.projects[i].lang) {
            Some(n) => {
                return Some(n);
            },
            None => {},
        }
        let mut k: usize = 0;
        while k < c.projects[i].tree.len()
            invariant
                0 <= i < c.projects@.len(),
                0 <= k <= c.projects@[i as int].tree@.len(),
                modules_names_ok(
                    c.projects@[i as int].tree@.take(k as int),
                    c.projects@[i as int].lang@,
                ),
                forall|j: int|
                    0 <= j < i ==> (distinct_lines(
                        sibling_names(
                            (#[trigger] c.projects@[j]).tree@,
                            c.projects@[j].file@,
                        ),
                    ) && level_clear(
                        c.projects@[j].tree@,
                        c.projects@[j].file@,
                        c.projects@[j].lang@,
                    ) && modules_names_ok(c.projects@[j].tree@, c.projects@[j].lang@)),
                distinct_lines(
                    sibling_names(c.projects@[i as int].tree@, c.projects@[i as int].file@),
                ),
                level_clear(
                    c.projects@[i as int].tree@,
                    c.projects@[i as int].file@,
                    c.projects@[i as int].lang@,
                ),
            decreases c.projects@[i as int].tree@.len() - k,
        {
            match check_module_names(&c.projects[i].tree[k], &c.projects[i].lang) {
                Some(n) => {
                    proof {
                        if modules_names_ok(
                            c.projects@[i as int].tree@,
                            c.projects@[i as int].lang@,
                        ) {
                            lemma_modules_names_ok_index(
                                c.projects@[i as int].tree@,
                                k as int,
                                c.projects@[i as int].lang@,
                            );
                        }
                    }
                    return Some(n);
                },
                None => {},
            }
            proof {
                let t = c.projects@[i as int].tree@;
                assert(t.take(k as int + 1).drop_last() =~= t.take(k as int));
                assert(t.take(k as int + 1).last() == t[k as int]);
            }
            k = k + 1;
        }
        proof {
            let t = c.projects@[i as int].tree@;
            assert(t.take(t.len() as int) =~= t);
        }
        i = i + 1;
    }
    None
}

/// Renders the configuration into the filesystem model: validates languages
/// and names, derives the plan, and applies it under the three protection
/// tiers.  On failure the model keeps the writes already applied, which a
/// later run re-derives and completes.
pub fn generate_from_config(fs: &mut FsState, config: &MoliConfig) -> (r: Result<(), GenError>)
    requires
        old(fs).wf(),
    ensures
        final(fs).wf(),
        r is Ok <==> (generation_ready(*config) && apply_plan_spec(
            old(fs)@,
            config_plan(*config),
        ) is Ok),
        match r {
            Ok(()) => apply_plan_spec(old(fs)@, config_plan(*config)) == Ok::<
                Map<Seq<u8>, EntryV>,
                ErrV,
            >(final(fs)@),
            Err(e) => {
                if !langs_ok(*config) {
                    e@ is UnsupportedLanguage && final(fs)@ == old(fs)@
                } else if !config_names_ok(*config) || !plan_clean(config_plan(*config)) {
                    e@ is NameCollision && final(fs)@ == old(fs)@
                } else {
                    apply_plan_spec(old(fs)@, config_plan(*config)) == Err::<
                        Map<Seq<u8>, EntryV>,
                        ErrV,
                    >(e@)
                }
            },
        },
{
    let plan = match build_plan(config) {
        Ok(p) => p,
        Err(e) => {
            return Err(e);
        },
    };
    match check_config_names(config) {
        Some(n) => {
            return Err(GenError::NameCollision(n));
        },
        None => {},
    }
    match check_plan_clean(&plan) {
        Some(p) => {
            return Err(GenError::NameCollision(p));
        },
        None => {},
    }
    apply_plan(fs, &plan)
}

/// Idempotence: a second run over an unchanged configuration succeeds and
/// leaves every path byte-identical — it rewrites nothing.
pub proof fn lemma_generation_idempotent(
    m: Map<Seq<u8>, EntryV>,
    m1: Map<Seq<u8>, EntryV>,
    c: MoliConfig,
)
    requires
        plan_clean(config_plan(c)),
        apply_plan_spec(m, config_plan(c)) == Ok::<Map<Seq<u8>, EntryV>, ErrV>(m1),
    ensures
        apply_plan_spec(m1, config_plan(c)) == Ok::<Map<Seq<u8>, EntryV>, ErrV>(m1),
{
    lemma_clean_wf(config_plan(c));
    lemma_plan_idempotent(m, m1, config_plan(c));
}

/// Protection: an existing file that no aggregator write of the plan
/// targets keeps its exact bytes, whatever the configuration now says.
/// This covers protected code files and create-once manifests alike.
pub proof fn lemma_generation_protects(
    m: Map<Seq<u8>, EntryV>,
    m1: Map<Seq<u8>, EntryV>,
    c: MoliConfig,
    q: Seq<u8>,
)
    requires
        apply_plan_spec(m, config_plan(c)) == Ok::<Map<Seq<u8>, EntryV>, ErrV>(m1),
        m.contains_key(q),
        m[q] is File,
        forall|k: int|
            0 <= k < config_plan(c).len() ==> !(is_aggregator(#[trigger] config_plan(c)[k])
                && target(config_plan(c)[k]) == q),
    ensures
        m1.contains_key(q),
        m1[q] == m[q],
{
    lemma_plan_protects(m, m1, config_plan(c), q);
}

/// Aggregator convergence: after a successful run, every aggregator file
/// holds exactly one marker pair whose enclosed region is exactly the
/// declared children's export lines, in declaration order.
pub proof fn lemma_generation_aggregator_region(
    m: Map<Seq<u8>, EntryV>,
    m1: Map<Seq<u8>, EntryV>,
    c: MoliConfig,
    k: int,
)
    requires
        plan_clean(config_plan(c)),
        apply_plan_spec(m, config_plan(c)) == Ok::<Map<Seq<u8>, EntryV>, ErrV>(m1),
        0 <= k < config_plan(c).len(),
        config_plan(c)[k] is WriteAggregator,
    ensures
        ({
            let a = config_plan(c)[k];
            match a {
                ActionV::WriteAggregator { path, header, start_marker, end_marker, body } => {
                    &&& m1.contains_key(path)
                    &&& match m1[path] {
                        EntryV::File(content) => has_one_pair(content, start_marker, end_marker)
                            && marker_region(content, start_marker, end_marker) == body,
                        EntryV::Dir => false,
                    }
                },
                _ => true,
            }
        }),
{
    lemma_clean_wf(config_plan(c));
    lemma_plan_aggregator_region(m, m1, config_plan(c), k);
}

} // verus!

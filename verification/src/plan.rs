//! Write actions and their application to the filesystem model.
//!
//! A generation run first derives a plan — a sequence of actions — from the
//! configuration alone, then applies it.  Each action carries its protection
//! tier: directories are ensured, protected files are created once and never
//! rewritten, managed aggregator files are spliced between their markers,
//! and manifests are created once.

use vstd::prelude::*;
use crate::errors::{ErrV, GenError};
use crate::fs::{EntryV, FsEntry, FsState};
use crate::splice::{has_one_pair, splice, splice_lines, synth, synth_lines};
use crate::text::copy_bytes;

verus! {

/// One write action of a plan.
#[derive(Debug, Clone, PartialEq, Eq)]
pub enum Action {
    /// Make sure a directory exists at `path`.
    EnsureDir { path: Vec<u8> },
    /// Create an empty file at `path` unless something already stands there.
    WriteProtected { path: Vec<u8> },
    /// Create or re-splice the managed aggregator file at `path`.
    WriteAggregator {
        path: Vec<u8>,
        header: Vec<Vec<u8>>,
        start_marker: Vec<u8>,
        end_marker: Vec<u8>,
        body: Vec<Vec<u8>>,
    },
    /// Create the manifest file at `path` unless one already stands there.
    WriteManifest { path: Vec<u8>, content: Vec<Vec<u8>> },
}

/// The mathematical value of an [`Action`].
pub enum ActionV {
    EnsureDir { path: Seq<u8> },
    WriteProtected { path: Seq<u8> },
    WriteAggregator {
        path: Seq<u8>,
        header: Seq<Seq<u8>>,
        start_marker: Seq<u8>,
        end_marker: Seq<u8>,
        body: Seq<Seq<u8>>,
    },
    WriteManifest { path: Seq<u8>, content: Seq<Seq<u8>> },
}

impl View for Action {
    type V = ActionV;

    open spec fn view(&self) -> ActionV {
        match self {
            Action::EnsureDir { path } => ActionV::EnsureDir { path: path@ },
            Action::WriteProtected { path } => ActionV::WriteProtected { path: path@ },
            Action::WriteAggregator { path, header, start_marker, end_marker, body } =>
                ActionV::WriteAggregator {
                path: path@,
                header: crate::text::lines_view(header@),
                start_marker: start_marker@,
                end_marker: end_marker@,
                body: crate::text::lines_view(body@),
            },
            Action::WriteManifest { path, content } => ActionV::WriteManifest {
                path: path@,
                content: crate::text::lines_view(content@),
            },
        }
    }
}

/// The path an action writes to.
pub open spec fn target(a: ActionV) -> Seq<u8> {
    match a {
        ActionV::EnsureDir { path } => path,
        ActionV::WriteProtected { path } => path,
        ActionV::WriteAggregator { path, .. } => path,
        ActionV::WriteManifest { path, .. } => path,
    }
}

pub open spec fn is_aggregator(a: ActionV) -> bool {
    a is WriteAggregator
}

/// What one action does to the filesystem map, or the error it stops with.
pub open spec fn apply_action_spec(m: Map<Seq<u8>, EntryV>, a: ActionV) -> Result<
    Map<Seq<u8>, EntryV>,
    ErrV,
> {
    match a {
        ActionV::EnsureDir { path } => {
            if m.contains_key(path) {
                match m[path] {
                    EntryV::Dir => Ok(m),
                    EntryV::File(_) => Err(ErrV::IoFailure(path)),
                }
            } else {
                Ok(m.insert(path, EntryV::Dir))
            }
        },
        ActionV::WriteProtected { path } => {
            if m.contains_key(path) {
                match m[path] {
                    EntryV::Dir => Err(ErrV::IoFailure(path)),
                    EntryV::File(_) => Ok(m),
                }
            } else {
                Ok(m.insert(path, EntryV::File(Seq::empty())))
            }
        },
        ActionV::WriteAggregator { path, header, start_marker, end_marker, body } => {
            if m.contains_key(path) {
                match m[path] {
                    EntryV::Dir => Err(ErrV::IoFailure(path)),
                    EntryV::File(c) => {
                        if has_one_pair(c, start_marker, end_marker) {
                            Ok(
                                m.insert(
                                    path,
                                    EntryV::File(splice_lines(c, start_marker, end_marker, body)),
                                ),
                            )
                        } else {
                            Err(ErrV::MarkerMismatch(path))
                        }
                    },
                }
            } else {
                Ok(
                    m.insert(
                        path,
                        EntryV::File(synth_lines(header, start_marker, end_marker, body)),
                    ),
                )
            }
        },
        ActionV::WriteManifest { path, content } => {
            if m.contains_key(path) {
                match m[path] {
                    EntryV::Dir => Err(ErrV::IoFailure(path)),
                    EntryV::File(_) => Ok(m),
                }
            } else {
                Ok(m.insert(path, EntryV::File(content)))
            }
        },
    }
}

/// A whole plan applied in order; the first failure stops it.
pub open spec fn apply_plan_spec(m: Map<Seq<u8>, EntryV>, p: Seq<ActionV>) -> Result<
    Map<Seq<u8>, EntryV>,
    ErrV,
>
    decreases p.len(),
{
    if p.len() == 0 {
        Ok(m)
    } else {
        match apply_action_spec(m, p[0]) {
            Ok(m2) => apply_plan_spec(m2, p.skip(1)),
            Err(e) => Err(e),
        }
    }
}

/// The view of a whole plan.
pub open spec fn plan_view(p: Seq<Action>) -> Seq<ActionV> {
    Seq::new(p.len(), |i: int| p[i]@)
}

/// An action is settled in a state when applying it changes nothing.
pub open spec fn settled(m: Map<Seq<u8>, EntryV>, a: ActionV) -> bool {
    apply_action_spec(m, a) == Ok::<Map<Seq<u8>, EntryV>, ErrV>(m)
}

/// An aggregator action whose markers differ and stand on no header or body
/// line; other actions are unconditionally well formed.
pub open spec fn wf_action(a: ActionV) -> bool {
    match a {
        ActionV::WriteAggregator { path, header, start_marker, end_marker, body } => {
            &&& crate::splice::line_absent(header, start_marker)
            &&& crate::splice::line_absent(header, end_marker)
            &&& crate::splice::line_absent(body, start_marker)
            &&& crate::splice::line_absent(body, end_marker)
            &&& start_marker != end_marker
        },
        _ => true,
    }
}

/// Two aggregator actions aimed at the same file must be the same action.
pub open spec fn compat(a: ActionV, b: ActionV) -> bool {
    (is_aggregator(a) && is_aggregator(b) && target(a) == target(b)) ==> a == b
}

/// Every action well formed, and no two distinct aggregator writes to one path.
pub open spec fn wf_plan(p: Seq<ActionV>) -> bool {
    &&& forall|k: int| 0 <= k < p.len() ==> wf_action(#[trigger] p[k])
    &&& forall|k: int, l: int|
        0 <= k < p.len() && 0 <= l < p.len() && k != l ==> compat(#[trigger] p[k], #[trigger] p[l])
}

/// What it takes, looking only at the target path, for an action to be settled.
pub open spec fn settled_char(m: Map<Seq<u8>, EntryV>, a: ActionV) -> bool {
    match a {
        ActionV::EnsureDir { path } => m.contains_key(path) && m[path] is Dir,
        ActionV::WriteProtected { path } => m.contains_key(path) && m[path] is File,
        ActionV::WriteManifest { path, .. } => m.contains_key(path) && m[path] is File,
        ActionV::WriteAggregator { path, header, start_marker, end_marker, body } => m.contains_key(
            path,
        ) && match m[path] {
            EntryV::Dir => false,
            EntryV::File(c) => has_one_pair(c, start_marker, end_marker) && splice_lines(
                c,
                start_marker,
                end_marker,
                body,
            ) == c,
        },
    }
}

pub proof fn lemma_settled_char(m: Map<Seq<u8>, EntryV>, a: ActionV)
    ensures
        settled(m, a) <==> settled_char(m, a),
{
    let t = target(a);
    if settled_char(m, a) {
        match a {
            ActionV::EnsureDir { path } => {
                assert(apply_action_spec(m, a) == Ok::<Map<Seq<u8>, EntryV>, ErrV>(m));
            },
            _ => {},
        }
    } else {
        if settled(m, a) {
            if !m.contains_key(t) {
                let m2 = apply_action_spec(m, a)->Ok_0;
                assert(m2.contains_key(t));
                assert(false);
            } else {
                match a {
                    ActionV::WriteAggregator { path, header, start_marker, end_marker, body } => {
                        match m[path] {
                            EntryV::Dir => {},
                            EntryV::File(c) => {
                                if has_one_pair(c, start_marker, end_marker) {
                                    let m2 = apply_action_spec(m, a)->Ok_0;
                                    assert(m2[path] == EntryV::File(
                                        splice_lines(c, start_marker, end_marker, body),
                                    ));
                                    assert(m[path] == EntryV::File(c));
                                }
                            },
                        }
                    },
                    _ => {},
                }
            }
        }
    }
    if settled_char(m, a) {
        match a {
            ActionV::WriteAggregator { path, header, start_marker, end_marker, body } => {
                match m[path] {
                    EntryV::Dir => {},
                    EntryV::File(c) => {
                        assert(m.insert(path, EntryV::File(
                            splice_lines(c, start_marker, end_marker, body),
                        )) =~= m);
                    },
                }
            },
            _ => {},
        }
    }
}

/// A successful action changes no path but its own target.
pub proof fn lemma_action_frame(
    m: Map<Seq<u8>, EntryV>,
    m2: Map<Seq<u8>, EntryV>,
    a: ActionV,
    q: Seq<u8>,
)
    requires
        apply_action_spec(m, a) == Ok::<Map<Seq<u8>, EntryV>, ErrV>(m2),
        q != target(a),
    ensures
        m2.contains_key(q) == m.contains_key(q),
        m.contains_key(q) ==> m2[q] == m[q],
{
}

/// A successful well-formed action is settled right after it ran.
pub proof fn lemma_action_settles(m: Map<Seq<u8>, EntryV>, m2: Map<Seq<u8>, EntryV>, a: ActionV)
    requires
        wf_action(a),
        apply_action_spec(m, a) == Ok::<Map<Seq<u8>, EntryV>, ErrV>(m2),
    ensures
        settled(m2, a),
{
    lemma_settled_char(m2, a);
    match a {
        ActionV::EnsureDir { path } => {},
        ActionV::WriteProtected { path } => {},
        ActionV::WriteManifest { path, .. } => {},
        ActionV::WriteAggregator { path, header, start_marker, end_marker, body } => {
            if m.contains_key(path) {
                match m[path] {
                    EntryV::Dir => {},
                    EntryV::File(c) => {
                        crate::splice::lemma_splice_properties(c, start_marker, end_marker, body);
                        assert(m2[path] == EntryV::File(
                            splice_lines(c, start_marker, end_marker, body),
                        ));
                    },
                }
            } else {
                crate::splice::lemma_synth_properties(header, start_marker, end_marker, body);
                assert(m2[path] == EntryV::File(
                    synth_lines(header, start_marker, end_marker, body),
                ));
            }
        },
    }
}

/// A later compatible successful action leaves an earlier one settled.
pub proof fn lemma_action_preserves_settled(
    m: Map<Seq<u8>, EntryV>,
    m2: Map<Seq<u8>, EntryV>,
    a: ActionV,
    b: ActionV,
)
    requires
        settled(m, a),
        apply_action_spec(m, b) == Ok::<Map<Seq<u8>, EntryV>, ErrV>(m2),
        compat(a, b),
    ensures
        settled(m2, a),
{
    lemma_settled_char(m, a);
    lemma_settled_char(m2, a);
    if target(b) != target(a) {
        lemma_action_frame(m, m2, b, target(a));
    } else {
        match b {
            ActionV::EnsureDir { path } => {},
            ActionV::WriteProtected { path } => {},
            ActionV::WriteManifest { path, .. } => {},
            ActionV::WriteAggregator { path, header, start_marker, end_marker, body } => {
                if is_aggregator(a) {
                    assert(a == b);
                } else {
                    match m[path] {
                        EntryV::Dir => {},
                        EntryV::File(c) => {
                            assert(m2[path] == EntryV::File(
                                splice_lines(c, start_marker, end_marker, body),
                            ));
                        },
                    }
                }
            },
        }
    }
}

/// Applying a whole successful plan leaves an already settled compatible
/// action settled.
pub proof fn lemma_plan_preserves_settled(
    m: Map<Seq<u8>, EntryV>,
    m2: Map<Seq<u8>, EntryV>,
    p: Seq<ActionV>,
    b: ActionV,
)
    requires
        apply_plan_spec(m, p) == Ok::<Map<Seq<u8>, EntryV>, ErrV>(m2),
        settled(m, b),
        forall|k: int| 0 <= k < p.len() ==> compat(b, #[trigger] p[k]),
    ensures
        settled(m2, b),
    decreases p.len(),
{
    if p.len() > 0 {
        let s0 = apply_action_spec(m, p[0]);
        let m1 = s0->Ok_0;
        lemma_action_preserves_settled(m, m1, b, p[0]);
        lemma_plan_preserves_settled(m1, m2, p.skip(1), b);
    }
}

/// After a successful well-formed plan every one of its actions is settled.
pub proof fn lemma_plan_settles(m: Map<Seq<u8>, EntryV>, m2: Map<Seq<u8>, EntryV>, p: Seq<ActionV>)
    requires
        wf_plan(p),
        apply_plan_spec(m, p) == Ok::<Map<Seq<u8>, EntryV>, ErrV>(m2),
    ensures
        forall|k: int| 0 <= k < p.len() ==> settled(m2, #[trigger] p[k]),
    decreases p.len(),
{
    if p.len() > 0 {
        let s0 = apply_action_spec(m, p[0]);
        let m1 = s0->Ok_0;
        let rest = p.skip(1);
        assert(wf_plan(rest)) by {
            assert(forall|k: int| 0 <= k < rest.len() ==> rest[k] == p[k + 1]);
        }
        lemma_action_settles(m, m1, p[0]);
        assert(forall|k: int| 0 <= k < rest.len() ==> compat(p[0], #[trigger] rest[k]));
        lemma_plan_preserves_settled(m1, m2, rest, p[0]);
        lemma_plan_settles(m1, m2, rest);
        assert forall|k: int| 0 <= k < p.len() implies settled(m2, #[trigger] p[k]) by {
            if k > 0 {
                assert(p[k] == rest[k - 1]);
            }
        }
    }
}

/// A plan made only of settled actions runs without error and changes nothing.
pub proof fn lemma_settled_plan_applies(m: Map<Seq<u8>, EntryV>, p: Seq<ActionV>)
    requires
        forall|k: int| 0 <= k < p.len() ==> settled(m, #[trigger] p[k]),
    ensures
        apply_plan_spec(m, p) == Ok::<Map<Seq<u8>, EntryV>, ErrV>(m),
    decreases p.len(),
{
    if p.len() > 0 {
        let rest = p.skip(1);
        assert(forall|k: int| 0 <= k < rest.len() ==> rest[k] == p[k + 1]);
        lemma_settled_plan_applies(m, rest);
    }
}

/// Applying a well-formed plan twice gives the same state and no error:
/// a second run over unchanged input rewrites nothing.
pub proof fn lemma_plan_idempotent(
    m: Map<Seq<u8>, EntryV>,
    m1: Map<Seq<u8>, EntryV>,
    p: Seq<ActionV>,
)
    requires
        wf_plan(p),
        apply_plan_spec(m, p) == Ok::<Map<Seq<u8>, EntryV>, ErrV>(m1),
    ensures
        apply_plan_spec(m1, p) == Ok::<Map<Seq<u8>, EntryV>, ErrV>(m1),
{
    lemma_plan_settles(m, m1, p);
    lemma_settled_plan_applies(m1, p);
}

/// A file that no aggregator action of the plan targets keeps its bytes,
/// whatever else the plan writes.
pub proof fn lemma_plan_protects(
    m: Map<Seq<u8>, EntryV>,
    m1: Map<Seq<u8>, EntryV>,
    p: Seq<ActionV>,
    q: Seq<u8>,
)
    requires
        apply_plan_spec(m, p) == Ok::<Map<Seq<u8>, EntryV>, ErrV>(m1),
        m.contains_key(q),
        m[q] is File,
        forall|k: int|
            0 <= k < p.len() ==> !(is_aggregator(#[trigger] p[k]) && target(p[k]) == q),
    ensures
        m1.contains_key(q),
        m1[q] == m[q],
    decreases p.len(),
{
    if p.len() > 0 {
        let s0 = apply_action_spec(m, p[0]);
        let mm = s0->Ok_0;
        if target(p[0]) != q {
            lemma_action_frame(m, mm, p[0], q);
        }
        let rest = p.skip(1);
        assert(forall|k: int| 0 <= k < rest.len() ==> rest[k] == p[k + 1]);
        lemma_plan_protects(mm, m1, rest, q);
    }
}

/// After a successful well-formed plan, each aggregator target holds a file
/// with exactly one marker pair, whose region is exactly the action's body.
pub proof fn lemma_plan_aggregator_region(
    m: Map<Seq<u8>, EntryV>,
    m1: Map<Seq<u8>, EntryV>,
    p: Seq<ActionV>,
    k: int,
)
    requires
        wf_plan(p),
        apply_plan_spec(m, p) == Ok::<Map<Seq<u8>, EntryV>, ErrV>(m1),
        0 <= k < p.len(),
        p[k] is WriteAggregator,
    ensures
        ({
            let a = p[k];
            match a {
                ActionV::WriteAggregator { path, header, start_marker, end_marker, body } => {
                    &&& m1.contains_key(path)
                    &&& match m1[path] {
                        EntryV::File(c) => has_one_pair(c, start_marker, end_marker)
                            && crate::splice::marker_region(c, start_marker, end_marker) == body,
                        EntryV::Dir => false,
                    }
                },
                _ => true,
            }
        }),
{
    lemma_plan_settles(m, m1, p);
    assert(settled(m1, p[k]));
    lemma_settled_char(m1, p[k]);
    match p[k] {
        ActionV::WriteAggregator { path, header, start_marker, end_marker, body } => {
            match m1[path] {
                EntryV::Dir => {},
                EntryV::File(c) => {
                    crate::splice::lemma_splice_properties(c, start_marker, end_marker, body);
                },
            }
        },
        _ => {},
    }
}

/// Every action well formed and no two aggregator writes to one path:
/// what the pre-application check decides.
pub open spec fn plan_clean(p: Seq<ActionV>) -> bool {
    &&& forall|k: int| 0 <= k < p.len() ==> wf_action(#[trigger] p[k])
    &&& forall|k: int, l: int|
        0 <= k < l < p.len() && is_aggregator(#[trigger] p[k]) && is_aggregator(#[trigger] p[l])
            ==> target(p[k]) != target(p[l])
}

pub proof fn lemma_clean_wf(p: Seq<ActionV>)
    requires
        plan_clean(p),
    ensures
        wf_plan(p),
{
    assert forall|k: int, l: int|
        0 <= k < p.len() && 0 <= l < p.len() && k != l implies compat(p[k], p[l]) by {
        if is_aggregator(p[k]) && is_aggregator(p[l]) {
            if k < l {
                assert(target(p[k]) != target(p[l]));
            } else {
                assert(target(p[l]) != target(p[k]));
            }
        }
    }
}

/// Applies one action to the filesystem model, exactly as
/// [`apply_action_spec`] says.
pub fn apply_action(fs: &mut FsState, a: &Action) -> (r: Result<(), GenError>)
    requires
        old(fs).wf(),
    ensures
        final(fs).wf(),
        ({
            let s = apply_action_spec(old(fs)@, a@);
            match r {
                Ok(()) => s == Ok::<Map<Seq<u8>, EntryV>, ErrV>(final(fs)@),
                Err(e) => s == Err::<Map<Seq<u8>, EntryV>, ErrV>(e@) && final(fs)@ == old(fs)@,
            }
        }),
{
    match a {
        Action::EnsureDir { path } => {
            match fs.get(path) {
                Some(FsEntry::Dir) => Ok(()),
                Some(FsEntry::File(_)) => Err(GenError::IoFailure(copy_bytes(path))),
                None => {
                    fs.set(path, FsEntry::Dir);
                    Ok(())
                },
            }
        },
        Action::WriteProtected { path } => {
            match fs.get(path) {
                Some(FsEntry::Dir) => Err(GenError::IoFailure(copy_bytes(path))),
                Some(FsEntry::File(_)) => Ok(()),
                None => {
                    let empty: Vec<Vec<u8>> = Vec::new();
                    assert(crate::text::lines_view(empty@) =~= Seq::<Seq<u8>>::empty());
                    fs.set(path, FsEntry::File(empty));
                    Ok(())
                },
            }
        },
        Action::WriteAggregator { path, header, start_marker, end_marker, body } => {
            let fresh = match fs.get(path) {
                Some(FsEntry::Dir) => {
                    return Err(GenError::IoFailure(copy_bytes(path)));
                },
                Some(FsEntry::File(c)) => {
                    match splice(c, start_marker, end_marker, body) {
                        Some(out) => out,
                        None => {
                            return Err(GenError::MarkerMismatch(copy_bytes(path)));
                        },
                    }
                },
                None => synth(header, start_marker, end_marker, body),
            };
            fs.set(path, FsEntry::File(fresh));
            Ok(())
        },
        Action::WriteManifest { path, content } => {
            match fs.get(path) {
                Some(FsEntry::Dir) => Err(GenError::IoFailure(copy_bytes(path))),
                Some(FsEntry::File(_)) => Ok(()),
                None => {
                    fs.set(path, FsEntry::File(crate::fs::copy_lines(content)));
                    Ok(())
                },
            }
        },
    }
}

/// Applies a plan in order; on failure the model keeps the writes made so
/// far, as a real run would.
pub fn apply_plan(fs: &mut FsState, plan: &Vec<Action>) -> (r: Result<(), GenError>)
    requires
        old(fs).wf(),
    ensures
        final(fs).wf(),
        ({
            let s = apply_plan_spec(old(fs)@, plan_view(plan@));
            match r {
                Ok(()) => s == Ok::<Map<Seq<u8>, EntryV>, ErrV>(final(fs)@),
                Err(e) => s == Err::<Map<Seq<u8>, EntryV>, ErrV>(e@),
            }
        }),
{
    let ghost pv = plan_view(plan@);
    proof {
        assert(pv.skip(0) =~= pv);
    }
    let mut i: usize = 0;
    while i < plan.len()
        invariant
            fs.wf(),
            0 <= i <= plan@.len(),
            pv == plan_view(plan@),
            apply_plan_spec(old(fs)@, pv) == apply_plan_spec(fs@, pv.skip(i as int)),
        decreases plan@.len() - i,
    {
        let ghost pre = fs@;
        let r = apply_action(fs, &plan[i]);
        proof {
            let rest = pv.skip(i as int);
            assert(rest[0] == pv[i as int]);
            assert(rest.skip(1) =~= pv.skip(i as int + 1));
        }
        match r {
            Ok(()) => {},
            Err(e) => {
                return Err(e);
            },
        }
        i = i + 1;
    }
    proof {
        assert(pv.skip(plan@.len() as int) =~= Seq::<ActionV>::empty());
    }
    Ok(())
}

} // verus!

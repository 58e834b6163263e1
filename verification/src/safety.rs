//! The rename plan and the checks made before it runs: a rename must not
//! make files disappear (fewer distinct names afterwards) and, run one file
//! after another, must not move a file onto a name that another file of the
//! same rename still holds.
use vstd::prelude::*;

use crate::pattern::{regex_is_match, regex_replace_all, Matcher};

verus! {

broadcast use vstd::seq_lib::group_seq_properties;

/// Why a rename was refused before it ran.
#[derive(Debug, PartialEq, Eq)]
pub enum SafetyViolation {
    /// Fewer distinct names after the rename than files before it.
    CountDecrease { before: usize, after: usize },
    /// `source` would be renamed to `target`, which another renamed file still
    /// holds when the renames run in order.
    ChainCollision { source: String, target: String },
}

/// A refusal as plain values.
pub enum ViolationView {
    CountDecrease { before: nat, after: nat },
    ChainCollision { source: Seq<char>, target: Seq<char> },
}

impl SafetyViolation {
    pub open spec fn view(&self) -> ViolationView {
        match self {
            SafetyViolation::CountDecrease { before, after } => ViolationView::CountDecrease {
                before: *before as nat,
                after: *after as nat,
            },
            SafetyViolation::ChainCollision { source, target } => ViolationView::ChainCollision {
                source: source@,
                target: target@,
            },
        }
    }
}

/// The names of directory entries given as `(is_file, name)` pairs.
pub open spec fn item_names(items: Seq<(bool, String)>) -> Seq<Seq<char>> {
    items.map_values(|it: (bool, String)| it.1@)
}

/// The views of a sequence of strings.
pub open spec fn string_views(v: Seq<String>) -> Seq<Seq<char>> {
    v.map_values(|s: String| s@)
}

/// Whether the entry `name` takes part in the rename: the replacement is not
/// empty and the regex matches the name.
pub open spec fn will_rename(re: Seq<char>, name: Seq<char>, replacement: Seq<char>) -> bool {
    replacement.len() > 0 && regex_is_match(re, name)
}

/// The name an entry has after the rename.
pub open spec fn new_name(re: Seq<char>, name: Seq<char>, replacement: Seq<char>) -> Seq<char> {
    if will_rename(re, name, replacement) {
        regex_replace_all(re, name, replacement)
    } else {
        name
    }
}

/// The names of all entries after the rename, in the same order.
pub open spec fn new_names(re: Seq<char>, names: Seq<Seq<char>>, replacement: Seq<char>) -> Seq<
    Seq<char>,
> {
    names.map_values(|n: Seq<char>| new_name(re, n, replacement))
}

/// How many entries there are after the rename: with an empty replacement
/// nothing is renamed, otherwise it is the number of distinct new names.
pub open spec fn count_after(re: Seq<char>, names: Seq<Seq<char>>, replacement: Seq<char>) -> nat {
    if replacement.len() == 0 {
        names.len()
    } else {
        new_names(re, names, replacement).to_set().len()
    }
}

/// Whether the entry really moves: it takes part and its new name differs.
pub open spec fn is_move(re: Seq<char>, name: Seq<char>, replacement: Seq<char>) -> bool {
    will_rename(re, name, replacement) && regex_replace_all(re, name, replacement) != name
}

/// The names of the entries that move, in order.
pub open spec fn moves(re: Seq<char>, names: Seq<Seq<char>>, replacement: Seq<char>) -> Seq<
    Seq<char>,
> {
    names.filter(move_pred(re, replacement))
}

/// `will_rename` as a predicate on names.
pub open spec fn rename_pred(re: Seq<char>, replacement: Seq<char>) -> spec_fn(Seq<char>) -> bool {
    |n: Seq<char>| will_rename(re, n, replacement)
}

/// The renames that running the rename performs, in order: every entry that
/// takes part, paired with its new name.
pub open spec fn planned_renames(re: Seq<char>, names: Seq<Seq<char>>, replacement: Seq<char>) -> Seq<
    (Seq<char>, Seq<char>),
> {
    names.filter(rename_pred(re, replacement)).map_values(
        |n: Seq<char>| (n, new_name(re, n, replacement)),
    )
}

/// `is_move` as a predicate on names.
pub open spec fn move_pred(re: Seq<char>, replacement: Seq<char>) -> spec_fn(Seq<char>) -> bool {
    |n: Seq<char>| is_move(re, n, replacement)
}

/// Whether moving `source` would land on the name of an entry that moves too.
pub open spec fn chain_collides(
    re: Seq<char>,
    names: Seq<Seq<char>>,
    replacement: Seq<char>,
    source: Seq<char>,
) -> bool {
    moves(re, names, replacement).contains(new_name(re, source, replacement))
}

/// `k` is the first moving entry whose move collides.
pub open spec fn first_collision(
    re: Seq<char>,
    names: Seq<Seq<char>>,
    replacement: Seq<char>,
    k: int,
) -> bool {
    let mv = moves(re, names, replacement);
    &&& 0 <= k < mv.len()
    &&& chain_collides(re, names, replacement, mv[k])
    &&& forall|j: int| 0 <= j < k ==> !chain_collides(re, names, replacement, #[trigger] mv[j])
}

/// Whether some moving entry collides.
pub open spec fn has_chain_collision(
    re: Seq<char>,
    names: Seq<Seq<char>>,
    replacement: Seq<char>,
) -> bool {
    exists|k: int|
        0 <= k < moves(re, names, replacement).len() && chain_collides(
            re,
            names,
            replacement,
            #[trigger] moves(re, names, replacement)[k],
        )
}

/// The refusal the checks give for a rename, if any: first the count of
/// distinct names, then, with a non-empty replacement, the first moving entry
/// that collides.
pub open spec fn preflight_outcome(re: Seq<char>, names: Seq<Seq<char>>, replacement: Seq<char>) -> Option<
    ViolationView,
> {
    let before = names.len();
    let after = count_after(re, names, replacement);
    if after < before {
        Some(ViolationView::CountDecrease { before, after })
    } else if replacement.len() == 0 || !has_chain_collision(re, names, replacement) {
        None
    } else {
        let k = choose|k: int| first_collision(re, names, replacement, k);
        let mv = moves(re, names, replacement);
        Some(ViolationView::ChainCollision { source: mv[k], target: new_name(re, mv[k], replacement) })
    }
}

/// At most one entry is the first to collide.
proof fn lemma_first_collision_unique(
    re: Seq<char>,
    names: Seq<Seq<char>>,
    replacement: Seq<char>,
    k1: int,
    k2: int,
)
    requires
        first_collision(re, names, replacement, k1),
        first_collision(re, names, replacement, k2),
    ensures
        k1 == k2,
{
    let mv = moves(re, names, replacement);
    if k1 < k2 {
        assert(!chain_collides(re, names, replacement, mv[k1]));
    } else if k2 < k1 {
        assert(!chain_collides(re, names, replacement, mv[k2]));
    }
}

/// When some moving entry collides, there is a first one that does.
proof fn lemma_first_collision_exists(
    re: Seq<char>,
    names: Seq<Seq<char>>,
    replacement: Seq<char>,
    k: int,
)
    requires
        0 <= k < moves(re, names, replacement).len(),
        chain_collides(re, names, replacement, moves(re, names, replacement)[k]),
    ensures
        exists|j: int| first_collision(re, names, replacement, j),
    decreases k,
{
    let mv = moves(re, names, replacement);
    if exists|j: int| 0 <= j < k && chain_collides(re, names, replacement, #[trigger] mv[j]) {
        let j = choose|j: int| 0 <= j < k && chain_collides(re, names, replacement, #[trigger] mv[j]);
        lemma_first_collision_exists(re, names, replacement, j);
    } else {
        assert(first_collision(re, names, replacement, k));
    }
}

/// Whether the checks before a rename let it run.
pub open spec fn preflight_passes(re: Seq<char>, names: Seq<Seq<char>>, replacement: Seq<char>) -> bool {
    &&& count_after(re, names, replacement) >= names.len()
    &&& replacement.len() > 0 ==> !has_chain_collision(re, names, replacement)
}

/// The names in the directory after the entries `0..k` were handled one after
/// the other, each entry that takes part being renamed to its new name.
pub open spec fn names_after_steps(
    re: Seq<char>,
    names: Seq<Seq<char>>,
    replacement: Seq<char>,
    k: int,
) -> Set<Seq<char>>
    decreases k,
{
    if k <= 0 {
        names.to_set()
    } else {
        let prev = names_after_steps(re, names, replacement, k - 1);
        let a = names[k - 1];
        if will_rename(re, a, replacement) {
            prev.remove(a).insert(new_name(re, a, replacement))
        } else {
            prev
        }
    }
}

/// The facts about a passing rename that the laws below rest on: new names
/// are pairwise distinct, so are the current names, and no moving entry moves
/// onto the current name of a moving entry.
proof fn lemma_passing_facts(re: Seq<char>, names: Seq<Seq<char>>, replacement: Seq<char>)
    requires
        preflight_passes(re, names, replacement),
        replacement.len() > 0,
    ensures
        new_names(re, names, replacement).no_duplicates(),
        names.no_duplicates(),
        forall|i: int, j: int|
            0 <= i < names.len() && 0 <= j < names.len() && is_move(re, names[i], replacement)
                && is_move(re, names[j], replacement) ==> #[trigger] new_name(
                re,
                names[i],
                replacement,
            ) != #[trigger] names[j],
{
    let nn = new_names(re, names, replacement);
    nn.lemma_cardinality_of_set();
    nn.lemma_no_dup_set_cardinality();
    assert forall|i: int, j: int| 0 <= i < names.len() && 0 <= j < names.len() && i != j implies names[i]
        != names[j] by {
        if names[i] == names[j] {
            assert(nn[i] == nn[j]);
        }
    }
    let mv = moves(re, names, replacement);
    let p = move_pred(re, replacement);
    assert forall|i: int, j: int|
        0 <= i < names.len() && 0 <= j < names.len() && is_move(re, names[i], replacement) && is_move(
            re,
            names[j],
            replacement,
        ) implies #[trigger] new_name(re, names[i], replacement) != #[trigger] names[j] by {
        names.lemma_filter_contains(p, i);
        names.lemma_filter_contains(p, j);
        let k = choose|k: int| 0 <= k < mv.len() && mv[k] == names[i];
        assert(!chain_collides(re, names, replacement, mv[k]));
    }
}

/// The directory after `k` steps holds the new names of the entries already
/// handled and the current names of the others.
proof fn lemma_steps_shape(re: Seq<char>, names: Seq<Seq<char>>, replacement: Seq<char>, k: int)
    requires
        preflight_passes(re, names, replacement),
        replacement.len() > 0,
        0 <= k <= names.len(),
    ensures
        names_after_steps(re, names, replacement, k) =~= Set::new(
            |x: Seq<char>|
                (exists|j: int| 0 <= j < k && #[trigger] new_names(re, names, replacement)[j] == x)
                    || (exists|j: int| k <= j < names.len() && #[trigger] names[j] == x),
        ),
    decreases k,
{
    lemma_passing_facts(re, names, replacement);
    let nn = new_names(re, names, replacement);
    if k == 0 {
        assert forall|x: Seq<char>| names.to_set().contains(x) implies (exists|j: int|
            0 <= j < names.len() && #[trigger] names[j] == x) by {
            let j = names.index_of(x);
        }
    } else {
        lemma_steps_shape(re, names, replacement, k - 1);
        let a = names[k - 1];
        let b = nn[k - 1];
        let prev = names_after_steps(re, names, replacement, k - 1);
        let target = Set::new(
            |x: Seq<char>|
                (exists|j: int| 0 <= j < k && #[trigger] nn[j] == x) || (exists|j: int|
                    k <= j < names.len() && #[trigger] names[j] == x),
        );
        assert forall|x: Seq<char>| names_after_steps(re, names, replacement, k).contains(x) implies target.contains(x) by {
            if will_rename(re, a, replacement) {
                if x == b {
                    assert(nn[k - 1] == x);
                } else {
                    assert(prev.contains(x) && x != a);
                    if exists|j: int| 0 <= j < k - 1 && #[trigger] nn[j] == x {
                        let j = choose|j: int| 0 <= j < k - 1 && #[trigger] nn[j] == x;
                        assert(nn[j] == x);
                    } else {
                        let j = choose|j: int| k - 1 <= j < names.len() && #[trigger] names[j] == x;
                        assert(names[j] == x);
                    }
                }
            } else {
                if exists|j: int| 0 <= j < k - 1 && #[trigger] nn[j] == x {
                    let j = choose|j: int| 0 <= j < k - 1 && #[trigger] nn[j] == x;
                    assert(nn[j] == x);
                } else {
                    let j = choose|j: int| k - 1 <= j < names.len() && #[trigger] names[j] == x;
                    if j == k - 1 {
                        assert(nn[k - 1] == x);
                    } else {
                        assert(names[j] == x);
                    }
                }
            }
        }
        assert forall|x: Seq<char>| target.contains(x) implies names_after_steps(
            re,
            names,
            replacement,
            k,
        ).contains(x) by {
            if exists|j: int| 0 <= j < k && #[trigger] nn[j] == x {
                let j = choose|j: int| 0 <= j < k && #[trigger] nn[j] == x;
                if j == k - 1 {
                    if !will_rename(re, a, replacement) {
                        assert(names[k - 1] == x);
                    }
                } else {
                    assert(prev.contains(x));
                    if will_rename(re, a, replacement) && x == a {
                        // the entry handled earlier would have moved onto `a`
                        if is_move(re, names[j], replacement) {
                            if is_move(re, a, replacement) {
                                assert(new_name(re, names[j], replacement) != names[k - 1]);
                            } else {
                                assert(nn[j] == nn[k - 1]);
                            }
                        } else {
                            assert(names[j] == names[k - 1]);
                        }
                    }
                }
            } else {
                let j = choose|j: int| k <= j < names.len() && #[trigger] names[j] == x;
                assert(prev.contains(x));
                if will_rename(re, a, replacement) && x == a {
                    assert(names[j] == names[k - 1]);
                }
            }
        }
    }
}

/// With an empty replacement no step changes the directory.
proof fn lemma_steps_without_replacement(
    re: Seq<char>,
    names: Seq<Seq<char>>,
    replacement: Seq<char>,
    k: int,
)
    requires
        replacement.len() == 0,
    ensures
        names_after_steps(re, names, replacement, k) == names.to_set(),
    decreases k,
{
    if k > 0 {
        lemma_steps_without_replacement(re, names, replacement, k - 1);
    }
}

/// A rename that passes the checks never overwrites a file: run one entry
/// after another, each entry that moves is still present under its current
/// name when its turn comes, and its new name is held by no file at that
/// moment. Afterwards the directory holds exactly the new names, as many as
/// there were entries.
pub proof fn lemma_passing_rename_never_overwrites(
    re: Seq<char>,
    names: Seq<Seq<char>>,
    replacement: Seq<char>,
)
    requires
        preflight_passes(re, names, replacement),
    ensures
        forall|k: int|
            0 <= k < names.len() && is_move(re, names[k], replacement) ==> {
                &&& #[trigger] names_after_steps(re, names, replacement, k).contains(names[k])
                &&& !names_after_steps(re, names, replacement, k).contains(
                    new_name(re, names[k], replacement),
                )
            },
        names_after_steps(re, names, replacement, names.len() as int) == new_names(
            re,
            names,
            replacement,
        ).to_set(),
        replacement.len() > 0 ==> names_after_steps(
            re,
            names,
            replacement,
            names.len() as int,
        ).len() == names.len(),
{
    if replacement.len() == 0 {
        lemma_steps_without_replacement(re, names, replacement, names.len() as int);
        assert(new_names(re, names, replacement) =~= names);
    } else {
        lemma_passing_facts(re, names, replacement);
        let nn = new_names(re, names, replacement);
        assert forall|k: int| 0 <= k < names.len() && is_move(re, names[k], replacement) implies {
            &&& #[trigger] names_after_steps(re, names, replacement, k).contains(names[k])
            &&& !names_after_steps(re, names, replacement, k).contains(
                new_name(re, names[k], replacement),
            )
        } by {
            lemma_steps_shape(re, names, replacement, k);
            assert(names[k] == names[k]);
            let b = nn[k];
            if names_after_steps(re, names, replacement, k).contains(b) {
                if exists|j: int| 0 <= j < k && #[trigger] nn[j] == b {
                    let j = choose|j: int| 0 <= j < k && #[trigger] nn[j] == b;
                    assert(nn[j] == nn[k]);
                } else {
                    let j = choose|j: int| k <= j < names.len() && #[trigger] names[j] == b;
                    if j != k {
                        if is_move(re, names[j], replacement) {
                            assert(new_name(re, names[k], replacement) != names[j]);
                        } else {
                            assert(nn[j] == nn[k]);
                        }
                    }
                }
            }
        }
        lemma_steps_shape(re, names, replacement, names.len() as int);
        assert forall|x: Seq<char>| nn.to_set().contains(x) implies names_after_steps(
            re,
            names,
            replacement,
            names.len() as int,
        ).contains(x) by {
            let j = nn.index_of(x);
            assert(nn[j] == x);
        }
        assert(names_after_steps(re, names, replacement, names.len() as int) =~= nn.to_set());
        nn.unique_seq_to_set();
    }
}

/// The names in a directory holding `dir` after the renames of `plan` ran
/// one after the other.
pub open spec fn apply_renames(dir: Set<Seq<char>>, plan: Seq<(Seq<char>, Seq<char>)>) -> Set<
    Seq<char>,
>
    decreases plan.len(),
{
    if plan.len() == 0 {
        dir
    } else {
        let prev = apply_renames(dir, plan.drop_last());
        prev.remove(plan.last().0).insert(plan.last().1)
    }
}

/// Handling the first `k` entries in order is running the plan made from them.
proof fn lemma_steps_are_plan(re: Seq<char>, names: Seq<Seq<char>>, replacement: Seq<char>, k: int)
    requires
        0 <= k <= names.len(),
    ensures
        names_after_steps(re, names, replacement, k) == apply_renames(
            names.to_set(),
            planned_renames(re, names.take(k), replacement),
        ),
    decreases k,
{
    if k == 0 {
        reveal(Seq::filter);
        assert(names.take(0) =~= Seq::<Seq<char>>::empty());
        assert(planned_renames(re, names.take(0), replacement) =~= Seq::<(Seq<char>, Seq<char>)>::empty());
    } else {
        lemma_steps_are_plan(re, names, replacement, k - 1);
        let a = names[k - 1];
        assert(names.take(k) =~= names.take(k - 1).push(a));
        names.take(k - 1).lemma_filter_push(a, rename_pred(re, replacement));
        let prev_plan = planned_renames(re, names.take(k - 1), replacement);
        if will_rename(re, a, replacement) {
            assert(planned_renames(re, names.take(k), replacement) =~= prev_plan.push(
                (a, new_name(re, a, replacement)),
            ));
            assert(prev_plan.push((a, new_name(re, a, replacement))).drop_last() =~= prev_plan);
        } else {
            assert(planned_renames(re, names.take(k), replacement) =~= prev_plan);
        }
    }
}

/// Every rename of the plan made from the first `k` entries is safe when its
/// turn comes.
proof fn lemma_plan_prefix_safe(re: Seq<char>, names: Seq<Seq<char>>, replacement: Seq<char>, k: int)
    requires
        preflight_passes(re, names, replacement),
        0 <= k <= names.len(),
    ensures
        ({
            let plan = planned_renames(re, names.take(k), replacement);
            forall|j: int|
                0 <= j < plan.len() && (#[trigger] plan[j]).0 != plan[j].1 ==> {
                    &&& apply_renames(names.to_set(), plan.take(j)).contains(plan[j].0)
                    &&& !apply_renames(names.to_set(), plan.take(j)).contains(plan[j].1)
                }
        }),
    decreases k,
{
    if k > 0 {
        lemma_plan_prefix_safe(re, names, replacement, k - 1);
        lemma_steps_are_plan(re, names, replacement, k - 1);
        lemma_passing_rename_never_overwrites(re, names, replacement);
        let a = names[k - 1];
        let prev_plan = planned_renames(re, names.take(k - 1), replacement);
        let plan = planned_renames(re, names.take(k), replacement);
        assert(names.take(k) =~= names.take(k - 1).push(a));
        names.take(k - 1).lemma_filter_push(a, rename_pred(re, replacement));
        if will_rename(re, a, replacement) {
            assert(plan =~= prev_plan.push((a, new_name(re, a, replacement))));
            assert forall|j: int| 0 <= j < plan.len() && (#[trigger] plan[j]).0 != plan[j].1 implies {
                &&& apply_renames(names.to_set(), plan.take(j)).contains(plan[j].0)
                &&& !apply_renames(names.to_set(), plan.take(j)).contains(plan[j].1)
            } by {
                if j < prev_plan.len() {
                    assert(plan.take(j) =~= prev_plan.take(j));
                    assert(plan[j] == prev_plan[j]);
                } else {
                    assert(plan.take(j) =~= prev_plan);
                    assert(is_move(re, names[k - 1], replacement));
                    assert(names_after_steps(re, names, replacement, k - 1).contains(names[k - 1]));
                }
            }
        } else {
            assert(plan =~= prev_plan);
        }
    } else {
        reveal(Seq::filter);
        assert(names.take(0) =~= Seq::<Seq<char>>::empty());
    }
}

/// A rename that passes the checks never overwrites a file when its plan
/// runs: each rename that moves a file finds the file still under its current
/// name and no file under the new name. Afterwards the directory holds exactly
/// the new names, as many as there were entries.
pub proof fn lemma_passing_plan_never_overwrites(
    re: Seq<char>,
    names: Seq<Seq<char>>,
    replacement: Seq<char>,
)
    requires
        preflight_passes(re, names, replacement),
    ensures
        ({
            let plan = planned_renames(re, names, replacement);
            &&& forall|j: int|
                0 <= j < plan.len() && (#[trigger] plan[j]).0 != plan[j].1 ==> {
                    &&& apply_renames(names.to_set(), plan.take(j)).contains(plan[j].0)
                    &&& !apply_renames(names.to_set(), plan.take(j)).contains(plan[j].1)
                }
            &&& apply_renames(names.to_set(), plan) == new_names(re, names, replacement).to_set()
            &&& replacement.len() > 0 ==> apply_renames(names.to_set(), plan).len() == names.len()
        }),
{
    let n = names.len() as int;
    assert(names.take(n) =~= names);
    lemma_plan_prefix_safe(re, names, replacement, n);
    lemma_steps_are_plan(re, names, replacement, n);
    lemma_passing_rename_never_overwrites(re, names, replacement);
}

/// With an empty replacement nothing is renamed: the plan is empty, no
/// name is lost and the checks let it run.
pub proof fn lemma_empty_replacement_renames_nothing(re: Seq<char>, names: Seq<Seq<char>>)
    ensures
        planned_renames(re, names, Seq::<char>::empty()).len() == 0,
        count_after(re, names, Seq::<char>::empty()) == names.len(),
        preflight_outcome(re, names, Seq::<char>::empty()) is None,
{
    let rep = Seq::<char>::empty();
    let f = names.filter(rename_pred(re, rep));
    if f.len() > 0 {
        names.lemma_filter_pred(rename_pred(re, rep), 0);
    }
}

/// The plan renames exactly the entries whose names the regex matches, in
/// their order, each to what the regex's `replace_all` makes of it, when the
/// replacement is not empty.
pub proof fn lemma_plan_is_matched_entries(
    re: Seq<char>,
    names: Seq<Seq<char>>,
    replacement: Seq<char>,
)
    requires
        replacement.len() > 0,
    ensures
        planned_renames(re, names, replacement) == names.filter(
            |n: Seq<char>| regex_is_match(re, n),
        ).map_values(|n: Seq<char>| (n, regex_replace_all(re, n, replacement))),
{
    let p = |n: Seq<char>| regex_is_match(re, n);
    assert(rename_pred(re, replacement) =~= p);
    let f = names.filter(p);
    assert forall|k: int| 0 <= k < f.len() implies #[trigger] new_name(re, f[k], replacement)
        == regex_replace_all(re, f[k], replacement) by {
        names.lemma_filter_pred(p, k);
    }
    assert(planned_renames(re, names, replacement) =~= f.map_values(
        |n: Seq<char>| (n, regex_replace_all(re, n, replacement)),
    ));
}

/// What the checks refuse, in terms of the regex: with an empty replacement
/// nothing; otherwise, when the new names (an unmatched entry keeps its name,
/// a matched one gets what `replace_all` makes of it) are fewer distinct
/// names than entries, the count decrease; otherwise, among the entries that
/// really move (matched and renamed to another name), the first whose new
/// name is the current name of a moving entry, with that new name.
pub proof fn lemma_preflight_refusals(re: Seq<char>, names: Seq<Seq<char>>, replacement: Seq<char>)
    ensures
        ({
            let after = names.map_values(
                |n: Seq<char>|
                    if regex_is_match(re, n) {
                        regex_replace_all(re, n, replacement)
                    } else {
                        n
                    },
            ).to_set().len();
            let mv = names.filter(
                |n: Seq<char>| regex_is_match(re, n) && regex_replace_all(re, n, replacement) != n,
            );
            let out = preflight_outcome(re, names, replacement);
            &&& replacement.len() == 0 ==> out is None
            &&& replacement.len() > 0 && after < names.len() ==> out == Some(
                ViolationView::CountDecrease { before: names.len(), after },
            )
            &&& replacement.len() > 0 && after >= names.len() ==> (out is None <==> forall|k: int|
                0 <= k < mv.len() ==> !mv.contains(regex_replace_all(re, #[trigger] mv[k], replacement)))
            &&& (out matches Some(ViolationView::ChainCollision { source, target }) ==> exists|k: int|
                0 <= k < mv.len() && source == #[trigger] mv[k] && target == regex_replace_all(
                    re,
                    mv[k],
                    replacement,
                ) && mv.contains(target) && forall|j: int|
                    0 <= j < k ==> !mv.contains(regex_replace_all(re, #[trigger] mv[j], replacement)))
        }),
{
    if replacement.len() == 0 {
        lemma_empty_replacement_renames_nothing(re, names);
    } else {
        let q = |n: Seq<char>| regex_is_match(re, n) && regex_replace_all(re, n, replacement) != n;
        assert(move_pred(re, replacement) =~= q);
        let mv = names.filter(q);
        assert(moves(re, names, replacement) == mv);
        let g = |n: Seq<char>|
            if regex_is_match(re, n) {
                regex_replace_all(re, n, replacement)
            } else {
                n
            };
        assert(new_names(re, names, replacement) =~= names.map_values(g));
        assert forall|k: int| 0 <= k < mv.len() implies #[trigger] new_name(re, mv[k], replacement)
            == regex_replace_all(re, mv[k], replacement) by {
            names.lemma_filter_pred(q, k);
        }
        if has_chain_collision(re, names, replacement) {
            let k0 = choose|k: int|
                0 <= k < moves(re, names, replacement).len() && chain_collides(
                    re,
                    names,
                    replacement,
                    #[trigger] moves(re, names, replacement)[k],
                );
            lemma_first_collision_exists(re, names, replacement, k0);
        }
        let out = preflight_outcome(re, names, replacement);
        if out matches Some(ViolationView::ChainCollision { source, target }) {
            let k = choose|k: int| first_collision(re, names, replacement, k);
            assert(first_collision(re, names, replacement, k));
            assert forall|j: int| 0 <= j < k implies !mv.contains(
                regex_replace_all(re, #[trigger] mv[j], replacement),
            ) by {
                assert(!chain_collides(re, names, replacement, mv[j]));
            }
        }
        if count_after(re, names, replacement) >= names.len() {
            if !has_chain_collision(re, names, replacement) {
                assert forall|k: int| 0 <= k < mv.len() implies !mv.contains(
                    regex_replace_all(re, #[trigger] mv[k], replacement),
                ) by {
                    assert(!chain_collides(re, names, replacement, moves(re, names, replacement)[k]));
                }
            } else {
                let k = choose|k: int|
                    0 <= k < moves(re, names, replacement).len() && chain_collides(
                        re,
                        names,
                        replacement,
                        #[trigger] moves(re, names, replacement)[k],
                    );
                assert(mv.contains(regex_replace_all(re, mv[k], replacement)));
            }
        }
    }
}

/// Whether `v` holds a string with the same text as `s`.
fn contains_string(v: &Vec<String>, s: &String) -> (b: bool)
    ensures
        b == string_views(v@).contains(s@),
{
    let mut j: usize = 0;
    while j < v.len()
        invariant
            j <= v.len(),
            forall|k: int| 0 <= k < j ==> v@[k]@ != s@,
        decreases v.len() - j,
    {
        if v[j] == *s {
            assert(string_views(v@)[j as int] == s@);
            return true;
        }
        j += 1;
    }
    assert forall|k: int| 0 <= k < string_views(v@).len() implies string_views(v@)[k] != s@ by {}
    false
}

/// The name that `name` gets after the rename: the regex
/// replaces when the replacement is not empty and the regex matches.
fn rename_one(match_re: &Matcher, name: &String, pattern: &str) -> (r: String)
    ensures
        r@ == new_name(match_re@, name@, pattern@),
{
    if match_re.is_match(name.as_str()) && !pattern.is_empty() {
        match_re.replace_all(name.as_str(), pattern)
    } else {
        name.clone()
    }
}

/// The number of entries before and after the rename. An empty replacement
/// renames nothing; otherwise the count after is the number of distinct names
/// the entries end up with.
pub fn calculate_rename_counts(items: &[(bool, String)], match_re: &Matcher, pattern: &str) -> (r: (
    usize,
    usize,
))
    ensures
        r.0 == items@.len(),
        r.1 == count_after(match_re@, item_names(items@), pattern@),
        r.1 <= r.0,
{
    let before = items.len();
    if pattern.is_empty() {
        return (before, before);
    }
    let ghost names = item_names(items@);
    let mut distinct: Vec<String> = Vec::new();
    let mut i: usize = 0;
    while i < items.len()
        invariant
            i <= items.len(),
            names == item_names(items@),
            pattern@.len() > 0,
            string_views(distinct@).no_duplicates(),
            string_views(distinct@).to_set() == new_names(
                match_re@,
                names.take(i as int),
                pattern@,
            ).to_set(),
        decreases items.len() - i,
    {
        let target = rename_one(match_re, &items[i].1, pattern);
        let ghost prev = string_views(distinct@);
        proof {
            assert(names.take(i + 1) =~= names.take(i as int).push(names[i as int]));
            assert(new_names(match_re@, names.take(i + 1), pattern@) =~= new_names(
                match_re@,
                names.take(i as int),
                pattern@,
            ).push(target@));
            new_names(match_re@, names.take(i as int), pattern@).lemma_push_to_set_commute(target@);
            prev.lemma_push_to_set_commute(target@);
        }
        if !contains_string(&distinct, &target) {
            distinct.push(target);
            proof {
                assert(string_views(distinct@) =~= prev.push(target@));
            }
        } else {
            proof {
                assert(prev.to_set().insert(target@) =~= prev.to_set());
            }
        }
        i += 1;
    }
    proof {
        assert(names.take(items@.len() as int) =~= names);
        string_views(distinct@).unique_seq_to_set();
        new_names(match_re@, names, pattern@).lemma_cardinality_of_set();
    }
    (before, distinct.len())
}

/// Checks a rename before it runs. It is refused when the entries would end up
/// with fewer distinct names than there are entries (`CountDecrease`), and
/// otherwise, when the replacement is not empty, at the first moving entry
/// whose new name is the current name of a moving entry (`ChainCollision`).
pub fn check_preflight_safety(items: &[(bool, String)], match_re: &Matcher, pattern: &str) -> (r:
    Result<(), SafetyViolation>)
    ensures
        r is Ok <==> preflight_passes(match_re@, item_names(items@), pattern@),
        match r {
            Ok(_) => preflight_outcome(match_re@, item_names(items@), pattern@) is None,
            Err(v) => preflight_outcome(match_re@, item_names(items@), pattern@) == Some(v.view()),
        },
        ({
            let names = item_names(items@);
            let before = names.len();
            let after = count_after(match_re@, names, pattern@);
            let mv = moves(match_re@, names, pattern@);
            &&& after < before ==> (r matches Err(SafetyViolation::CountDecrease { before: b, after: a })
                && b == before && a == after)
            &&& after >= before && pattern@.len() == 0 ==> r is Ok
            &&& after >= before && pattern@.len() > 0 ==> {
                &&& r is Ok <==> !has_chain_collision(match_re@, names, pattern@)
                &&& (r is Err ==> r matches Err(SafetyViolation::ChainCollision { .. }))
                &&& (r matches Err(SafetyViolation::ChainCollision { source, target }) ==> exists|k: int|
                    first_collision(match_re@, names, pattern@, k) && source@ == #[trigger] mv[k]
                        && target@ == new_name(match_re@, mv[k], pattern@))
            }
        }),
{
    let (before, after) = calculate_rename_counts(items, match_re, pattern);
    if after < before {
        return Err(SafetyViolation::CountDecrease { before, after });
    }
    if pattern.is_empty() {
        return Ok(());
    }
    let ghost names = item_names(items@);
    let ghost re = match_re@;
    let ghost rep = pattern@;
    let mut sources: Vec<String> = Vec::new();
    let mut renames: Vec<(String, String)> = Vec::new();
    let mut i: usize = 0;
    while i < items.len()
        invariant
            i <= items.len(),
            names == item_names(items@),
            re == match_re@,
            rep == pattern@,
            rep.len() > 0,
            count_after(re, names, rep) >= names.len(),
            string_views(sources@) == moves(re, names.take(i as int), rep),
            renames@.len() == sources@.len(),
            forall|k: int|
                0 <= k < renames@.len() ==> (#[trigger] renames@[k]).0@ == sources@[k]@
                    && renames@[k].1@ == new_name(re, sources@[k]@, rep),
        decreases items.len() - i,
    {
        let name = &items[i].1;
        let ghost prev = string_views(sources@);
        proof {
            assert(names.take(i + 1) =~= names.take(i as int).push(names[i as int]));
            names.take(i as int).lemma_filter_push(names[i as int], move_pred(re, rep));
        }
        if match_re.is_match(name.as_str()) {
            let renamed = match_re.replace_all(name.as_str(), pattern);
            if !(renamed == *name) {
                sources.push(name.clone());
                renames.push((name.clone(), renamed));
                proof {
                    assert(string_views(sources@) =~= prev.push(name@));
                }
            }
        }
        i += 1;
    }
    proof {
        assert(names.take(items@.len() as int) =~= names);
    }
    let ghost mv = moves(re, names, rep);
    let mut k: usize = 0;
    while k < renames.len()
        invariant
            k <= renames@.len(),
            names == item_names(items@),
            re == match_re@,
            rep == pattern@,
            mv == moves(re, names, rep),
            rep.len() > 0,
            count_after(re, names, rep) >= names.len(),
            string_views(sources@) == mv,
            renames@.len() == sources@.len(),
            forall|j: int|
                0 <= j < renames@.len() ==> (#[trigger] renames@[j]).0@ == sources@[j]@
                    && renames@[j].1@ == new_name(re, sources@[j]@, rep),
            forall|j: int| 0 <= j < k ==> !chain_collides(re, names, rep, #[trigger] mv[j]),
        decreases renames.len() - k,
    {
        assert(mv[k as int] == sources@[k as int]@);
        if contains_string(&sources, &renames[k].1) {
            let source = renames[k].0.clone();
            let target = renames[k].1.clone();
            assert(chain_collides(re, names, rep, moves(re, names, rep)[k as int]));
            assert(first_collision(re, names, rep, k as int));
            assert(source@ == mv[k as int] && target@ == new_name(re, mv[k as int], rep));
            proof {
                let k0 = choose|k0: int| first_collision(re, names, rep, k0);
                lemma_first_collision_unique(re, names, rep, k0, k as int);
            }
            return Err(SafetyViolation::ChainCollision { source, target });
        }
        k += 1;
    }
    assert forall|j: int| 0 <= j < mv.len() implies !chain_collides(re, names, rep, #[trigger] mv[j]) by {}
    Ok(())
}

/// The renames to run, in order, as `(current name, new name)` pairs: every
/// entry whose name the regex matches, when the replacement is not empty.
pub fn rename_plan(items: &[(bool, String)], match_re: &Matcher, pattern: &str) -> (plan: Vec<
    (String, String),
>)
    ensures
        plan@.len() == planned_renames(match_re@, item_names(items@), pattern@).len(),
        forall|k: int|
            0 <= k < plan@.len() ==> ((#[trigger] plan@[k]).0@, plan@[k].1@) == planned_renames(
                match_re@,
                item_names(items@),
                pattern@,
            )[k],
{
    let ghost names = item_names(items@);
    let ghost re = match_re@;
    let ghost rep = pattern@;
    let mut plan: Vec<(String, String)> = Vec::new();
    let mut i: usize = 0;
    while i < items.len()
        invariant
            i <= items.len(),
            names == item_names(items@),
            re == match_re@,
            rep == pattern@,
            plan@.len() == planned_renames(re, names.take(i as int), rep).len(),
            forall|k: int|
                0 <= k < plan@.len() ==> ((#[trigger] plan@[k]).0@, plan@[k].1@) == planned_renames(
                    re,
                    names.take(i as int),
                    rep,
                )[k],
        decreases items.len() - i,
    {
        let name = &items[i].1;
        proof {
            assert(names.take(i + 1) =~= names.take(i as int).push(names[i as int]));
            names.take(i as int).lemma_filter_push(names[i as int], rename_pred(re, rep));
        }
        if match_re.is_match(name.as_str()) && !pattern.is_empty() {
            let renamed = match_re.replace_all(name.as_str(), pattern);
            plan.push((name.clone(), renamed));
            proof {
                assert(planned_renames(re, names.take(i + 1), rep) =~= planned_renames(
                    re,
                    names.take(i as int),
                    rep,
                ).push((names[i as int], new_name(re, names[i as int], rep))));
            }
        } else {
            proof {
                assert(planned_renames(re, names.take(i + 1), rep) =~= planned_renames(
                    re,
                    names.take(i as int),
                    rep,
                ));
            }
        }
        i += 1;
    }
    proof {
        assert(names.take(items@.len() as int) =~= names);
    }
    plan
}

/// What to do after one rename of the plan was attempted.
#[derive(Debug, Clone, Copy, PartialEq, Eq)]
pub enum RenameProgress {
    /// Attempt the rename at this index of the plan.
    Next(usize),
    /// Stop, and leave with this exit code.
    Finish(i32),
}

/// Where running a plan of `total` renames starts.
pub fn start_renames(total: usize) -> (p: RenameProgress)
    ensures
        total == 0 ==> p == RenameProgress::Finish(0),
        total > 0 ==> p == RenameProgress::Next(0),
{
    if total == 0 {
        RenameProgress::Finish(0)
    } else {
        RenameProgress::Next(0)
    }
}

/// After attempting rename `done` of `total`: a failure stops the run with exit
/// code 1; a success goes on with the next rename, or ends with exit code 0
/// after the last one.
pub fn after_rename_attempt(done: usize, total: usize, succeeded: bool) -> (p: RenameProgress)
    requires
        done < total,
    ensures
        !succeeded ==> p == RenameProgress::Finish(1),
        succeeded && done + 1 < total ==> p == RenameProgress::Next((done + 1) as usize),
        succeeded && done + 1 == total ==> p == RenameProgress::Finish(0),
{
    if !succeeded {
        RenameProgress::Finish(1)
    } else if done + 1 < total {
        RenameProgress::Next(done + 1)
    } else {
        RenameProgress::Finish(0)
    }
}

} // verus!

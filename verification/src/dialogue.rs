//! Resolving against an AUR that does not change while it is asked.
//!
//! The questions come to an end, and what they lead to depends on nothing but the packages that the
//! AUR has: there is an order if, and only if, the AUR has every target and no package that is
//! needed depends on itself by way of others.

use crate::aur::{dep_name, AurInfo};
use crate::database::DatabasesModel;
use crate::resolve::{
    at_most, cyclic_message, finished_order_is_buildable, is_buildable, is_covered, is_settled,
    lemma_visit_with_more_replies, no_progress, not_found_message, visit, visit_dependencies,
    visit_targets, Outcome, Progress, Reply,
};
use vstd::prelude::*;

verus! {

/// What the AUR tells of a package.
pub open spec fn told(aur: Map<Seq<char>, AurInfo>, package: Seq<char>) -> Reply {
    if aur.contains_key(package) {
        Reply::Found(aur[package])
    } else {
        Reply::Missing
    }
}

/// Whether the replies are what the AUR tells, each to the question that the ones before it led to.
pub open spec fn is_dialogue(
    aur: Map<Seq<char>, AurInfo>,
    run: spec_fn(Seq<Reply>) -> Outcome,
    replies: Seq<Reply>,
) -> bool {
    forall|k: int|
        0 <= k < replies.len() ==> (run(#[trigger] replies.take(k)) matches Outcome::Ask(question)
            && replies[k] == told(aur, question))
}

/// Resolving the targets, as far as the replies lead.
pub open spec fn resolving(
    databases: DatabasesModel,
    targets: Seq<Seq<char>>,
) -> spec_fn(Seq<Reply>) -> Outcome {
    |replies: Seq<Reply>| visit_targets(databases, targets, no_progress(), replies)
}

/// Whether building `package` needs `other` from the AUR.
pub open spec fn needs(
    databases: DatabasesModel,
    aur: Map<Seq<char>, AurInfo>,
    package: Seq<char>,
    other: Seq<char>,
) -> bool {
    &&& aur.contains_key(package)
    &&& aur.contains_key(other)
    &&& !is_settled(databases, package, other)
    &&& exists|k: int|
        0 <= k < aur[package].dependencies().len() && dep_name(
            #[trigger] aur[package].dependencies()[k],
        ) == other
}

/// Whether the package at place `i` needs the one behind it.
pub open spec fn is_link(
    databases: DatabasesModel,
    aur: Map<Seq<char>, AurInfo>,
    path: Seq<Seq<char>>,
    i: int,
) -> bool {
    needs(databases, aur, path[i], path[i + 1])
}

/// Whether every package in the list needs the one behind it.
pub open spec fn is_path(
    databases: DatabasesModel,
    aur: Map<Seq<char>, AurInfo>,
    path: Seq<Seq<char>>,
) -> bool {
    forall|i: int| 0 <= i < path.len() - 1 ==> #[trigger] is_link(databases, aur, path, i)
}

/// Whether `to` is needed by `from`, or by something that `from` needs, and so on.
pub open spec fn leads_to(
    databases: DatabasesModel,
    aur: Map<Seq<char>, AurInfo>,
    from: Seq<char>,
    to: Seq<char>,
) -> bool {
    exists|path: Seq<Seq<char>>| #[trigger]
        is_path(databases, aur, path) && path.len() >= 2 && path[0] == from && path.last() == to
}

/// Whether a package is a target or is needed by one, directly or not.
pub open spec fn is_wanted(
    databases: DatabasesModel,
    aur: Map<Seq<char>, AurInfo>,
    targets: Seq<Seq<char>>,
    package: Seq<char>,
) -> bool {
    exists|path: Seq<Seq<char>>| #[trigger]
        is_path(databases, aur, path) && path.len() >= 1 && targets.contains(path[0])
            && path.last() == package
}

/// Whether what is known is what the AUR tells.
pub open spec fn is_told(aur: Map<Seq<char>, AurInfo>, progress: Progress) -> bool {
    &&& forall|x: Seq<char>| #[trigger]
        progress.infos.contains_key(x) ==> aur.contains_key(x) && progress.infos[x] == aur[x]
    &&& forall|x: Seq<char>| #[trigger] progress.absent.contains(x) ==> !aur.contains_key(x)
}

/// Whether resolving `root` has to fail with this message: the AUR has no such package, or `root`
/// is or leads to a package that depends on itself, which the message names.
pub open spec fn is_to_blame(
    databases: DatabasesModel,
    aur: Map<Seq<char>, AurInfo>,
    root: Seq<char>,
    message: Seq<char>,
) -> bool {
    ||| !aur.contains_key(root) && message == not_found_message(root)
    ||| exists|package: Seq<char>| #[trigger]
        leads_to(databases, aur, package, package) && (package == root || leads_to(
            databases,
            aur,
            root,
            package,
        )) && message == cyclic_message(package)
}

/// Whether a run has ended as it should, with nothing left over.
pub open spec fn has_ended(
    databases: DatabasesModel,
    aur: Map<Seq<char>, AurInfo>,
    root: Seq<char>,
    outcome: Outcome,
) -> bool {
    match outcome {
        Outcome::Done { progress, rest } => rest.len() == 0 && is_told(aur, progress),
        Outcome::Ask(_) => false,
        Outcome::Failed(message) => is_to_blame(databases, aur, root, message),
    }
}

spec fn visiting(
    databases: DatabasesModel,
    package: Seq<char>,
    ancestors: Set<Seq<char>>,
    progress: Progress,
) -> spec_fn(Seq<Reply>) -> Outcome {
    |replies: Seq<Reply>| visit(databases, package, ancestors, progress, replies)
}

spec fn visiting_dependencies(
    databases: DatabasesModel,
    package: Seq<char>,
    dependencies: Seq<Seq<char>>,
    ancestors: Set<Seq<char>>,
    progress: Progress,
) -> spec_fn(Seq<Reply>) -> Outcome {
    |replies: Seq<Reply>|
        visit_dependencies(databases, package, dependencies, ancestors, progress, replies)
}

proof fn lemma_set_of_longer_path(path: Seq<Seq<char>>, package: Seq<char>)
    ensures
        path.push(package).to_set() == path.to_set().insert(package),
{
    let longer = path.push(package);
    assert forall|x: Seq<char>| longer.to_set().contains(x) implies path.to_set().insert(
        package,
    ).contains(x) by {
        let i = choose|i: int| 0 <= i < longer.len() && longer[i] == x;
        if i < path.len() {
            assert(path[i] == x);
        }
    }
    assert forall|x: Seq<char>|
        path.to_set().insert(package).contains(x) implies longer.to_set().contains(x) by {
        if x == package {
            assert(longer[path.len() as int] == x);
        } else {
            let i = choose|i: int| 0 <= i < path.len() && path[i] == x;
            assert(longer[i] == x);
        }
    }
    assert(longer.to_set() =~= path.to_set().insert(package));
}

proof fn lemma_part_of_path(
    databases: DatabasesModel,
    aur: Map<Seq<char>, AurInfo>,
    path: Seq<Seq<char>>,
    from: int,
    to: int,
)
    requires
        is_path(databases, aur, path),
        0 <= from <= to <= path.len(),
    ensures
        is_path(databases, aur, path.subrange(from, to)),
{
    let part = path.subrange(from, to);
    assert forall|i: int| 0 <= i < part.len() - 1 implies #[trigger] is_link(
        databases,
        aur,
        part,
        i,
    ) by {
        assert(is_link(databases, aur, path, from + i));
    }
}

/// The questions about one package and all that it needs come to an end. `path` leads from `root`
/// to the package.
proof fn lemma_visit_ends(
    databases: DatabasesModel,
    aur: Map<Seq<char>, AurInfo>,
    root: Seq<char>,
    path: Seq<Seq<char>>,
    package: Seq<char>,
    progress: Progress,
) -> (replies: Seq<Reply>)
    requires
        aur.dom().finite(),
        is_path(databases, aur, path.push(package)),
        path.push(package)[0] == root,
        is_told(aur, progress),
    ensures
        is_dialogue(aur, visiting(databases, package, path.to_set(), progress), replies),
        has_ended(
            databases,
            aur,
            root,
            visit(databases, package, path.to_set(), progress, replies),
        ),
    decreases aur.dom().difference(path.to_set()).len(), 0nat,
{
    let ancestors = path.to_set();
    let run = visiting(databases, package, ancestors, progress);
    let longer = path.push(package);
    if progress.order.contains(package) {
        seq![]
    } else if ancestors.contains(package) {
        let i = choose|i: int| 0 <= i < path.len() && path[i] == package;
        let cycle = longer.subrange(i, longer.len() as int);
        lemma_part_of_path(databases, aur, longer, i, longer.len() as int);
        assert(cycle[0] == package && cycle.last() == package);
        assert(leads_to(databases, aur, package, package));
        if package != root {
            lemma_part_of_path(databases, aur, longer, 0, i + 1);
            let start = longer.subrange(0, i + 1);
            assert(start[0] == root && start.last() == package);
            assert(i > 0);
            assert(leads_to(databases, aur, root, package));
        }
        seq![]
    } else if !aur.contains_key(package) {
        if path.len() > 0 {
            assert(is_link(databases, aur, longer, path.len() - 1));
        }
        let replies = seq![Reply::Missing];
        assert(replies.take(0) =~= seq![]);
        assert(run(seq![]) == Outcome::Ask(package));
        replies
    } else {
        lemma_set_of_longer_path(path, package);
        let waiting = longer.to_set();
        assert(aur.dom().difference(waiting) =~= aur.dom().difference(ancestors).remove(package));
        let info = aur[package];
        let inner = lemma_dependencies_end(
            databases,
            aur,
            root,
            longer,
            package,
            info.dependencies(),
            progress,
        );
        let replies = seq![Reply::Found(info)] + inner;
        let deeper = visiting_dependencies(
            databases,
            package,
            info.dependencies(),
            waiting,
            progress,
        );
        assert forall|k: int| 0 <= k < replies.len() implies (run(
            #[trigger] replies.take(k),
        ) matches Outcome::Ask(question) && replies[k] == told(aur, question)) by {
            if k == 0 {
                assert(replies.take(0) =~= seq![]);
                assert(run(seq![]) == Outcome::Ask(package));
            } else {
                let part = inner.take(k - 1);
                assert(replies.take(k).drop_first() =~= part);
                assert(replies.take(k)[0] == replies[0]);
                assert(deeper(part) is Ask);
                assert(replies[k] == inner[k - 1]);
            }
        }
        assert(replies.drop_first() =~= inner);
        replies
    }
}

/// The questions about the dependencies of a package come to an end. `path` leads from `root` to
/// the package.
proof fn lemma_dependencies_end(
    databases: DatabasesModel,
    aur: Map<Seq<char>, AurInfo>,
    root: Seq<char>,
    path: Seq<Seq<char>>,
    package: Seq<char>,
    dependencies: Seq<Seq<char>>,
    progress: Progress,
) -> (replies: Seq<Reply>)
    requires
        aur.dom().finite(),
        path.len() > 0,
        is_path(databases, aur, path),
        path[0] == root,
        path.last() == package,
        aur.contains_key(package),
        forall|k: int|
            0 <= k < dependencies.len() ==> aur[package].dependencies().contains(
                #[trigger] dependencies[k],
            ),
        is_told(aur, progress),
    ensures
        is_dialogue(
            aur,
            visiting_dependencies(databases, package, dependencies, path.to_set(), progress),
            replies,
        ),
        has_ended(
            databases,
            aur,
            root,
            visit_dependencies(
                databases,
                package,
                dependencies,
                path.to_set(),
                progress,
                replies,
            ),
        ),
    decreases aur.dom().difference(path.to_set()).len(), dependencies.len(),
{
    let ancestors = path.to_set();
    let run = visiting_dependencies(databases, package, dependencies, ancestors, progress);
    if dependencies.len() == 0 {
        seq![]
    } else {
        let dep = dep_name(dependencies[0]);
        let others = dependencies.drop_first();
        assert forall|k: int| 0 <= k < others.len() implies aur[package].dependencies().contains(
            #[trigger] others[k],
        ) by {
            assert(others[k] == dependencies[k + 1]);
        }
        if is_settled(databases, package, dep) {
            let replies = lemma_dependencies_end(
                databases,
                aur,
                root,
                path,
                package,
                others,
                progress,
            );
            let inner = visiting_dependencies(databases, package, others, ancestors, progress);
            assert forall|k: int| 0 <= k < replies.len() implies (run(
                #[trigger] replies.take(k),
            ) matches Outcome::Ask(question) && replies[k] == told(aur, question)) by {
                assert(inner(replies.take(k)) is Ask);
            }
            replies
        } else if !aur.contains_key(dep) {
            let noted = Progress { absent: progress.absent.insert(dep), ..progress };
            let inner = lemma_dependencies_end(
                databases,
                aur,
                root,
                path,
                package,
                others,
                noted,
            );
            let deeper = visiting_dependencies(databases, package, others, ancestors, noted);
            let replies = seq![Reply::Missing] + inner;
            assert forall|k: int| 0 <= k < replies.len() implies (run(
                #[trigger] replies.take(k),
            ) matches Outcome::Ask(question) && replies[k] == told(aur, question)) by {
                if k == 0 {
                    assert(replies.take(0) =~= seq![]);
                    assert(run(seq![]) == Outcome::Ask(dep));
                } else {
                    let part = inner.take(k - 1);
                    assert(replies.take(k).drop_first() =~= part);
                    assert(replies.take(k)[0] == replies[0]);
                    assert(deeper(part) is Ask);
                    assert(replies[k] == inner[k - 1]);
                }
            }
            assert(replies.drop_first() =~= inner);
            replies
        } else {
            let longer = path.push(dep);
            assert(needs(databases, aur, package, dep)) by {
                assert(aur[package].dependencies().contains(dependencies[0]));
                let k = choose|k: int|
                    0 <= k < aur[package].dependencies().len() && aur[package].dependencies()[k]
                        == dependencies[0];
                assert(dep_name(aur[package].dependencies()[k]) == dep);
            }
            assert(is_path(databases, aur, longer)) by {
                assert forall|i: int| 0 <= i < longer.len() - 1 implies #[trigger] is_link(
                    databases,
                    aur,
                    longer,
                    i,
                ) by {
                    if i < path.len() - 1 {
                        assert(is_link(databases, aur, path, i));
                    }
                }
            }
            let first = lemma_visit_ends(databases, aur, root, path, dep, progress);
            let visited = visiting(databases, dep, ancestors, progress);
            let found = Reply::Found(aur[dep]);
            match visit(databases, dep, ancestors, progress, first) {
                Outcome::Done { progress: reached, rest } => {
                    let second = lemma_dependencies_end(
                        databases,
                        aur,
                        root,
                        path,
                        package,
                        others,
                        reached,
                    );
                    let deeper = visiting_dependencies(
                        databases,
                        package,
                        others,
                        ancestors,
                        reached,
                    );
                    let replies = seq![found] + first + second;
                    assert forall|more: Seq<Reply>| #[trigger]
                        run(seq![found] + first + more) == deeper(more) by {
                        let given = seq![found] + first + more;
                        assert(given.drop_first() =~= first + more);
                        assert(given[0] == found);
                        lemma_visit_with_more_replies(
                            databases,
                            dep,
                            ancestors,
                            progress,
                            first,
                            more,
                        );
                        assert(rest + more =~= more);
                        assert(at_most(more, first + more) == more);
                    }
                    assert forall|k: int| 0 <= k < replies.len() implies (run(
                        #[trigger] replies.take(k),
                    ) matches Outcome::Ask(question) && replies[k] == told(aur, question)) by {
                        if k == 0 {
                            assert(replies.take(0) =~= seq![]);
                            assert(run(seq![]) == Outcome::Ask(dep));
                        } else if k <= first.len() {
                            let part = first.take(k - 1);
                            assert(replies.take(k).drop_first() =~= part);
                            assert(replies.take(k)[0] == found);
                            assert(visited(part) is Ask);
                            assert(replies[k] == first[k - 1]);
                        } else {
                            let j = k - 1 - first.len();
                            let part = second.take(j);
                            assert(replies.take(k) =~= seq![found] + first + part);
                            assert(deeper(part) is Ask);
                            assert(replies[k] == second[j]);
                        }
                    }
                    assert(run(replies) == deeper(second));
                    replies
                },
                stopped => {
                    let replies = seq![found] + first;
                    assert forall|k: int| 0 <= k < replies.len() implies (run(
                        #[trigger] replies.take(k),
                    ) matches Outcome::Ask(question) && replies[k] == told(aur, question)) by {
                        if k == 0 {
                            assert(replies.take(0) =~= seq![]);
                            assert(run(seq![]) == Outcome::Ask(dep));
                        } else {
                            let part = first.take(k - 1);
                            assert(replies.take(k).drop_first() =~= part);
                            assert(replies.take(k)[0] == found);
                            assert(visited(part) is Ask);
                            assert(replies[k] == first[k - 1]);
                        }
                    }
                    assert(replies.drop_first() =~= first);
                    replies
                },
            }
        }
    }
}

/// Whether resolving the targets has ended as it should.
pub open spec fn have_ended(
    databases: DatabasesModel,
    aur: Map<Seq<char>, AurInfo>,
    targets: Seq<Seq<char>>,
    outcome: Outcome,
) -> bool {
    match outcome {
        Outcome::Done { progress, rest } => rest.len() == 0 && is_told(aur, progress),
        Outcome::Ask(_) => false,
        Outcome::Failed(message) => exists|i: int|
            0 <= i < targets.len() && is_to_blame(databases, aur, #[trigger] targets[i], message),
    }
}

spec fn visiting_targets(
    databases: DatabasesModel,
    targets: Seq<Seq<char>>,
    progress: Progress,
) -> spec_fn(Seq<Reply>) -> Outcome {
    |replies: Seq<Reply>| visit_targets(databases, targets, progress, replies)
}

proof fn lemma_targets_end(
    databases: DatabasesModel,
    aur: Map<Seq<char>, AurInfo>,
    targets: Seq<Seq<char>>,
    progress: Progress,
) -> (replies: Seq<Reply>)
    requires
        aur.dom().finite(),
        is_told(aur, progress),
    ensures
        is_dialogue(aur, visiting_targets(databases, targets, progress), replies),
        have_ended(
            databases,
            aur,
            targets,
            visit_targets(databases, targets, progress, replies),
        ),
    decreases targets.len(),
{
    let run = visiting_targets(databases, targets, progress);
    if targets.len() == 0 {
        seq![]
    } else {
        let target = targets[0];
        let others = targets.drop_first();
        let path = Seq::<Seq<char>>::empty();
        assert(path.to_set() =~= Set::empty());
        assert(path.push(target)[0] == target);
        let first = lemma_visit_ends(databases, aur, target, path, target, progress);
        let visited = visiting(databases, target, Set::empty(), progress);
        match visit(databases, target, Set::empty(), progress, first) {
            Outcome::Done { progress: reached, rest } => {
                let second = lemma_targets_end(databases, aur, others, reached);
                let deeper = visiting_targets(databases, others, reached);
                let replies = first + second;
                assert forall|more: Seq<Reply>| #[trigger] run(first + more) == deeper(more) by {
                    lemma_visit_with_more_replies(
                        databases,
                        target,
                        Set::empty(),
                        progress,
                        first,
                        more,
                    );
                    assert(rest + more =~= more);
                }
                assert forall|k: int| 0 <= k < replies.len() implies (run(
                    #[trigger] replies.take(k),
                ) matches Outcome::Ask(question) && replies[k] == told(aur, question)) by {
                    if k < first.len() {
                        assert(replies.take(k) =~= first.take(k));
                        assert(visited(first.take(k)) is Ask);
                        assert(replies[k] == first[k]);
                    } else {
                        let j = k - first.len();
                        assert(replies.take(k) =~= first + second.take(j));
                        assert(deeper(second.take(j)) is Ask);
                        assert(replies[k] == second[j]);
                    }
                }
                assert(run(replies) == deeper(second));
                if let Outcome::Failed(message) = run(replies) {
                    let i = choose|i: int|
                        0 <= i < others.len() && is_to_blame(
                            databases,
                            aur,
                            #[trigger] others[i],
                            message,
                        );
                    assert(targets[i + 1] == others[i]);
                }
                replies
            },
            stopped => {
                assert forall|k: int| 0 <= k < first.len() implies (run(
                    #[trigger] first.take(k),
                ) matches Outcome::Ask(question) && first[k] == told(aur, question)) by {
                    assert(visited(first.take(k)) is Ask);
                }
                if let Outcome::Failed(message) = stopped {
                    assert(is_to_blame(databases, aur, targets[0], message));
                }
                first
            },
        }
    }
}

/// An AUR of finitely many packages is asked finitely many questions: answering each one leads to
/// an order or to a failure.
pub proof fn questions_come_to_an_end(
    databases: DatabasesModel,
    aur: Map<Seq<char>, AurInfo>,
    targets: Seq<Seq<char>>,
)
    requires
        aur.dom().finite(),
    ensures
        exists|replies: Seq<Reply>| #[trigger]
            is_dialogue(aur, resolving(databases, targets), replies) && !(visit_targets(
                databases,
                targets,
                no_progress(),
                replies,
            ) is Ask),
{
    let replies = lemma_targets_end(databases, aur, targets, no_progress());
    lemma_same_dialogue(
        aur,
        visiting_targets(databases, targets, no_progress()),
        resolving(databases, targets),
        replies,
    );
}

proof fn lemma_same_dialogue(
    aur: Map<Seq<char>, AurInfo>,
    run: spec_fn(Seq<Reply>) -> Outcome,
    other: spec_fn(Seq<Reply>) -> Outcome,
    replies: Seq<Reply>,
)
    requires
        is_dialogue(aur, run, replies),
        forall|r: Seq<Reply>| #[trigger] run(r) == other(r),
    ensures
        is_dialogue(aur, other, replies),
{
    assert forall|k: int| 0 <= k < replies.len() implies (other(
        #[trigger] replies.take(k),
    ) matches Outcome::Ask(question) && replies[k] == told(aur, question)) by {
        assert(run(replies.take(k)) == other(replies.take(k)));
    }
}

/// There is only one way to ask: of two series of replies to the same targets, one begins the
/// other.
pub proof fn dialogue_is_determined(
    databases: DatabasesModel,
    aur: Map<Seq<char>, AurInfo>,
    targets: Seq<Seq<char>>,
    a: Seq<Reply>,
    b: Seq<Reply>,
)
    requires
        is_dialogue(aur, resolving(databases, targets), a),
        is_dialogue(aur, resolving(databases, targets), b),
        a.len() <= b.len(),
    ensures
        a == b.take(a.len() as int),
{
    lemma_dialogue_is_determined(aur, resolving(databases, targets), a, b, a.len());
    assert(a.take(a.len() as int) =~= a);
}

proof fn lemma_dialogue_is_determined(
    aur: Map<Seq<char>, AurInfo>,
    run: spec_fn(Seq<Reply>) -> Outcome,
    a: Seq<Reply>,
    b: Seq<Reply>,
    n: nat,
)
    requires
        is_dialogue(aur, run, a),
        is_dialogue(aur, run, b),
        n <= a.len() <= b.len(),
    ensures
        a.take(n as int) == b.take(n as int),
    decreases n,
{
    if n > 0 {
        lemma_dialogue_is_determined(aur, run, a, b, (n - 1) as nat);
        let k = n - 1;
        assert(run(a.take(k)) is Ask);
        assert(run(b.take(k)) is Ask);
        assert(a[k] == b[k]);
        assert(a.take(n as int) =~= a.take(k).push(a[k]));
        assert(b.take(n as int) =~= b.take(k).push(b[k]));
    } else {
        assert(a.take(0) =~= b.take(0));
    }
}

/// What a package of a finished order needs from the AUR stands before it.
proof fn lemma_needed_stands_before(
    databases: DatabasesModel,
    aur: Map<Seq<char>, AurInfo>,
    progress: Progress,
    i: int,
    other: Seq<char>,
)
    requires
        is_buildable(databases, progress),
        is_told(aur, progress),
        0 <= i < progress.order.len(),
        needs(databases, aur, progress.order[i], other),
    ensures
        exists|j: int| 0 <= j < i && #[trigger] progress.order[j] == other,
{
    let package = progress.order[i];
    assert(progress.order.to_set().contains(package));
    assert(progress.infos.dom().contains(package));
    assert(progress.infos.contains_key(package));
    assert(progress.infos[package] == aur[package]);
    let k = choose|k: int|
        0 <= k < aur[package].dependencies().len() && dep_name(
            #[trigger] aur[package].dependencies()[k],
        ) == other;
    let dependency = aur[package].dependencies()[k];
    assert(is_covered(
        databases,
        package,
        dependency,
        progress.order.take(i),
        progress.absent,
    ));
    assert(progress.order.take(i).contains(other));
    let j = choose|j: int| 0 <= j < i && progress.order.take(i)[j] == other;
    assert(progress.order[j] == other);
}

/// A path that begins in a finished order runs through it from back to front.
proof fn lemma_path_runs_forward(
    databases: DatabasesModel,
    aur: Map<Seq<char>, AurInfo>,
    progress: Progress,
    path: Seq<Seq<char>>,
    i: int,
) -> (j: int)
    requires
        is_buildable(databases, progress),
        is_told(aur, progress),
        is_path(databases, aur, path),
        path.len() >= 1,
        0 <= i < progress.order.len(),
        progress.order[i] == path[0],
    ensures
        0 <= j <= i,
        progress.order[j] == path.last(),
        path.len() >= 2 ==> j < i,
    decreases path.len(),
{
    if path.len() == 1 {
        i
    } else {
        assert(is_link(databases, aur, path, 0));
        lemma_needed_stands_before(databases, aur, progress, i, path[1]);
        let next = choose|j: int| 0 <= j < i && #[trigger] progress.order[j] == path[1];
        lemma_part_of_path(databases, aur, path, 1, path.len() as int);
        let part = path.subrange(1, path.len() as int);
        assert(part.last() == path.last());
        lemma_path_runs_forward(databases, aur, progress, part, next)
    }
}

proof fn lemma_settled_dialogue_has_ended(
    databases: DatabasesModel,
    aur: Map<Seq<char>, AurInfo>,
    targets: Seq<Seq<char>>,
    replies: Seq<Reply>,
)
    requires
        aur.dom().finite(),
        is_dialogue(aur, resolving(databases, targets), replies),
        !(visit_targets(databases, targets, no_progress(), replies) is Ask),
    ensures
        have_ended(
            databases,
            aur,
            targets,
            visit_targets(databases, targets, no_progress(), replies),
        ),
{
    let run = resolving(databases, targets);
    let full = lemma_targets_end(databases, aur, targets, no_progress());
    lemma_same_dialogue(
        aur,
        visiting_targets(databases, targets, no_progress()),
        run,
        full,
    );
    if replies.len() <= full.len() {
        dialogue_is_determined(databases, aur, targets, replies, full);
        if replies.len() < full.len() {
            assert(run(full.take(replies.len() as int)) is Ask);
        } else {
            assert(full.take(replies.len() as int) =~= full);
        }
    } else {
        dialogue_is_determined(databases, aur, targets, full, replies);
        assert(run(replies.take(full.len() as int)) is Ask);
    }
}

/// There is an order exactly when the AUR has every target and no package that is wanted depends
/// on itself by way of others.
pub proof fn order_exists_when_it_can(
    databases: DatabasesModel,
    aur: Map<Seq<char>, AurInfo>,
    targets: Seq<Seq<char>>,
    replies: Seq<Reply>,
)
    requires
        aur.dom().finite(),
        is_dialogue(aur, resolving(databases, targets), replies),
        !(visit_targets(databases, targets, no_progress(), replies) is Ask),
    ensures
        visit_targets(databases, targets, no_progress(), replies) is Done <==> (forall|i: int|
            0 <= i < targets.len() ==> aur.contains_key(#[trigger] targets[i])) && (forall|
            package: Seq<char>,
        | #[trigger]
            is_wanted(databases, aur, targets, package) ==> !leads_to(
                databases,
                aur,
                package,
                package,
            )),
{
    lemma_settled_dialogue_has_ended(databases, aur, targets, replies);
    match visit_targets(databases, targets, no_progress(), replies) {
        Outcome::Done { progress, .. } => {
            finished_order_is_buildable(databases, targets, replies);
            assert forall|i: int| 0 <= i < targets.len() implies aur.contains_key(
                #[trigger] targets[i],
            ) by {
                assert(progress.order.contains(targets[i]));
                assert(progress.order.to_set().contains(targets[i]));
                assert(progress.infos.contains_key(targets[i]));
            }
            assert forall|package: Seq<char>| #[trigger]
                is_wanted(databases, aur, targets, package) implies !leads_to(
                databases,
                aur,
                package,
                package,
            ) by {
                let path = choose|path: Seq<Seq<char>>| #[trigger]
                    is_path(databases, aur, path) && path.len() >= 1 && targets.contains(path[0])
                        && path.last() == package;
                let t = choose|t: int| 0 <= t < targets.len() && targets[t] == path[0];
                assert(progress.order.contains(targets[t]));
                let start = choose|i: int|
                    0 <= i < progress.order.len() && progress.order[i] == path[0];
                let at = lemma_path_runs_forward(databases, aur, progress, path, start);
                if leads_to(databases, aur, package, package) {
                    let cycle = choose|cycle: Seq<Seq<char>>| #[trigger]
                        is_path(databases, aur, cycle) && cycle.len() >= 2 && cycle[0] == package
                            && cycle.last() == package;
                    let again = lemma_path_runs_forward(databases, aur, progress, cycle, at);
                    assert(progress.order[again] == progress.order[at] && again < at);
                }
            }
        },
        Outcome::Ask(_) => {},
        Outcome::Failed(message) => {
            let i = choose|i: int|
                0 <= i < targets.len() && is_to_blame(
                    databases,
                    aur,
                    #[trigger] targets[i],
                    message,
                );
            let root = targets[i];
            if aur.contains_key(root) {
                let package = choose|package: Seq<char>| #[trigger]
                    leads_to(databases, aur, package, package) && (package == root || leads_to(
                        databases,
                        aur,
                        root,
                        package,
                    )) && message == cyclic_message(package);
                if package == root {
                    let path = seq![root];
                    assert(is_path(databases, aur, path));
                    assert(targets.contains(path[0]) && path.last() == package);
                } else {
                    let path = choose|path: Seq<Seq<char>>| #[trigger]
                        is_path(databases, aur, path) && path.len() >= 2 && path[0] == root
                            && path.last() == package;
                    assert(targets.contains(path[0]));
                }
                assert(is_wanted(databases, aur, targets, package));
            }
        },
    }
}

/// A failure tells the truth: it names a target that the AUR does not have, or a package that is
/// wanted and depends on itself by way of others.
pub proof fn failure_names_its_cause(
    databases: DatabasesModel,
    aur: Map<Seq<char>, AurInfo>,
    targets: Seq<Seq<char>>,
    replies: Seq<Reply>,
)
    requires
        aur.dom().finite(),
        is_dialogue(aur, resolving(databases, targets), replies),
    ensures
        visit_targets(databases, targets, no_progress(), replies) matches Outcome::Failed(message)
            ==> exists|i: int|
            0 <= i < targets.len() && is_to_blame(databases, aur, #[trigger] targets[i], message),
{
    if visit_targets(databases, targets, no_progress(), replies) is Failed {
        lemma_settled_dialogue_has_ended(databases, aur, targets, replies);
    }
}

/// A finished order is what the AUR told: the metadata of each of its packages is what the AUR has,
/// and every dependency that was passed over is one that the AUR lacks.
pub proof fn finished_order_is_told(
    databases: DatabasesModel,
    aur: Map<Seq<char>, AurInfo>,
    targets: Seq<Seq<char>>,
    replies: Seq<Reply>,
)
    requires
        aur.dom().finite(),
        is_dialogue(aur, resolving(databases, targets), replies),
    ensures
        visit_targets(databases, targets, no_progress(), replies) matches Outcome::Done {
            progress,
            rest,
        } ==> is_told(aur, progress) && rest.len() == 0 && forall|i: int|
            0 <= i < progress.order.len() ==> aur.contains_key(#[trigger] progress.order[i])
                && progress.infos[progress.order[i]] == aur[progress.order[i]],
{
    if let Outcome::Done { progress, .. } = visit_targets(
        databases,
        targets,
        no_progress(),
        replies,
    ) {
        lemma_settled_dialogue_has_ended(databases, aur, targets, replies);
        finished_order_is_buildable(databases, targets, replies);
        assert forall|i: int| 0 <= i < progress.order.len() implies aur.contains_key(
            #[trigger] progress.order[i],
        ) && progress.infos[progress.order[i]] == aur[progress.order[i]] by {
            assert(progress.order.to_set().contains(progress.order[i]));
            assert(progress.infos.contains_key(progress.order[i]));
        }
    }
}

} // verus!

//! The order in which AUR packages have to be built.
//!
//! Resolving asks the AUR about packages as it goes. The replies received so far are an argument
//! here, in the order in which they were asked for: the outcome is either the finished order, a
//! failure, or the name of the package to ask about next.

use crate::aur::{aur_dependencies, dep_name, normalize_dep_name, AurInfo, AurPackageInfo};
use crate::command::Source;
use crate::database::{
    find_sync_pkg, is_installed, lookup_finds_the_first, sync_lookup_finds_the_first, Databases,
    DatabasesModel,
};
use crate::text::{list_contains, same, texts};
use vstd::hash_map::StringHashMap;
use vstd::hash_set::StringHashSet;
use vstd::prelude::*;

verus! {

/// What became of asking the AUR about a package.
#[derive(Debug)]
pub enum Fetched {
    /// The request failed, for this reason.
    Failed(String),
    /// The AUR has no such package.
    Missing,
    /// The AUR has the package.
    Found(AurPackageInfo),
}

/// The texts that a reply holds.
pub enum Reply {
    Failed(Seq<char>),
    Missing,
    Found(AurInfo),
}

impl View for Fetched {
    type V = Reply;

    open spec fn view(&self) -> Reply {
        match self {
            Fetched::Failed(reason) => Reply::Failed(reason@),
            Fetched::Missing => Reply::Missing,
            Fetched::Found(info) => Reply::Found(info@),
        }
    }
}

/// The texts that a list of replies holds.
pub open spec fn reply_models(replies: Seq<Fetched>) -> Seq<Reply> {
    Seq::new(replies.len(), |i: int| replies[i]@)
}

/// What came back when the AUR was asked.
#[derive(Debug)]
pub enum Answer {
    /// Nothing, for this reason.
    Unreachable(String),
    /// Something that is no answer, for this reason.
    Unreadable(String),
    /// The packages that match.
    Results(Vec<AurPackageInfo>),
}

/// The message for something that is no answer to a question about `subject`.
pub open spec fn unreadable_message(subject: Seq<char>, reason: Seq<char>) -> Seq<char> {
    "failed to parse AUR response for '"@ + subject + "': "@ + reason
}

/// Writes the message for something that is no answer to a question about `subject`.
pub(crate) fn unreadable_text(subject: &str, reason: &str) -> (r: String)
    ensures
        r@ == unreadable_message(subject@, reason@),
{
    String::from_str("failed to parse AUR response for '").concat(subject).concat("': ").concat(
        reason,
    )
}

/// What an answer says of the package `name`: the first match counts.
pub open spec fn answered(name: Seq<char>, answer: Answer) -> Reply {
    match answer {
        Answer::Unreachable(reason) => Reply::Failed(reason@),
        Answer::Unreadable(reason) => Reply::Failed(unreadable_message(name, reason@)),
        Answer::Results(results) => if results@.len() == 0 {
            Reply::Missing
        } else {
            Reply::Found(results@[0]@)
        },
    }
}

/// Reads the answer about the package `name`.
pub fn fetch_aur_info(name: &str, answer: &Answer) -> (r: Fetched)
    ensures
        r@ == answered(name@, *answer),
{
    match answer {
        Answer::Unreachable(reason) => Fetched::Failed(reason.clone()),
        Answer::Unreadable(reason) => Fetched::Failed(unreadable_text(name, reason.as_str())),
        Answer::Results(results) => if results.is_empty() {
            Fetched::Missing
        } else {
            Fetched::Found(results[0].clone())
        },
    }
}

/// What is known while an order is being worked out.
#[verifier::ext_equal]
pub struct Progress {
    /// The packages that can be built, each after what it needs.
    pub order: Seq<Seq<char>>,
    /// The metadata of these packages.
    pub infos: Map<Seq<char>, AurInfo>,
    /// The dependencies that the AUR was asked about and does not have.
    pub absent: Set<Seq<char>>,
}

/// How far the replies lead.
#[verifier::ext_equal]
pub enum Outcome {
    /// To the end, with the replies in `rest` left over.
    Done { progress: Progress, rest: Seq<Reply> },
    /// To a question: what does the AUR say of this package?
    Ask(Seq<char>),
    /// To a failure, with this message.
    Failed(Seq<char>),
}

/// The message for a package that depends on itself by way of others.
pub open spec fn cyclic_message(package: Seq<char>) -> Seq<char> {
    "cyclic AUR dependency detected at '"@ + package + "'"@
}

/// The message for a package that the AUR does not have.
pub open spec fn not_found_message(package: Seq<char>) -> Seq<char> {
    "AUR package '"@ + package + "' not found"@
}

/// Whether a dependency of `package` is nothing to look for in the AUR: it has no name, is the
/// package itself, or is provided by the databases.
pub open spec fn is_settled(databases: DatabasesModel, package: Seq<char>, dep: Seq<char>) -> bool {
    dep.len() == 0 || dep == package || databases.provides(dep)
}

/// `rest`, or `limit` if it is shorter.
pub open spec fn at_most(rest: Seq<Reply>, limit: Seq<Reply>) -> Seq<Reply> {
    if rest.len() <= limit.len() {
        rest
    } else {
        limit
    }
}

/// Adds `package`, after all that it needs, to the order. `ancestors` are the packages that are
/// waiting for it.
pub open spec fn visit(
    databases: DatabasesModel,
    package: Seq<char>,
    ancestors: Set<Seq<char>>,
    progress: Progress,
    replies: Seq<Reply>,
) -> Outcome
    decreases replies.len(), 0nat,
{
    if progress.order.contains(package) {
        Outcome::Done { progress, rest: replies }
    } else if ancestors.contains(package) {
        Outcome::Failed(cyclic_message(package))
    } else if replies.len() == 0 {
        Outcome::Ask(package)
    } else {
        match replies[0] {
            Reply::Failed(reason) => Outcome::Failed(reason),
            Reply::Missing => Outcome::Failed(not_found_message(package)),
            Reply::Found(info) => match visit_dependencies(
                databases,
                package,
                info.dependencies(),
                ancestors.insert(package),
                progress,
                replies.drop_first(),
            ) {
                Outcome::Done { progress: reached, rest } => Outcome::Done {
                    progress: Progress {
                        order: reached.order.push(package),
                        infos: reached.infos.insert(package, info),
                        absent: reached.absent,
                    },
                    rest,
                },
                stopped => stopped,
            },
        }
    }
}

/// Adds the dependencies of `package` that have to come from the AUR to the order, one after
/// another.
pub open spec fn visit_dependencies(
    databases: DatabasesModel,
    package: Seq<char>,
    dependencies: Seq<Seq<char>>,
    ancestors: Set<Seq<char>>,
    progress: Progress,
    replies: Seq<Reply>,
) -> Outcome
    decreases replies.len(), dependencies.len(),
{
    if dependencies.len() == 0 {
        Outcome::Done { progress, rest: replies }
    } else {
        let dep = dep_name(dependencies[0]);
        let others = dependencies.drop_first();
        if is_settled(databases, package, dep) {
            visit_dependencies(databases, package, others, ancestors, progress, replies)
        } else if replies.len() == 0 {
            Outcome::Ask(dep)
        } else {
            match replies[0] {
                Reply::Failed(reason) => Outcome::Failed(reason),
                Reply::Missing => visit_dependencies(
                    databases,
                    package,
                    others,
                    ancestors,
                    Progress { absent: progress.absent.insert(dep), ..progress },
                    replies.drop_first(),
                ),
                Reply::Found(_) => match visit(
                    databases,
                    dep,
                    ancestors,
                    progress,
                    replies.drop_first(),
                ) {
                    Outcome::Done { progress: reached, rest } => visit_dependencies(
                        databases,
                        package,
                        others,
                        ancestors,
                        reached,
                        at_most(rest, replies.drop_first()),
                    ),
                    stopped => stopped,
                },
            }
        }
    }
}

/// Adds the targets to the order, one after another.
pub open spec fn visit_targets(
    databases: DatabasesModel,
    targets: Seq<Seq<char>>,
    progress: Progress,
    replies: Seq<Reply>,
) -> Outcome
    decreases targets.len(),
{
    if targets.len() == 0 {
        Outcome::Done { progress, rest: replies }
    } else {
        match visit(databases, targets[0], Set::empty(), progress, replies) {
            Outcome::Done { progress: reached, rest } => visit_targets(
                databases,
                targets.drop_first(),
                reached,
                rest,
            ),
            stopped => stopped,
        }
    }
}

/// What is known before anything was looked at.
pub open spec fn no_progress() -> Progress {
    Progress { order: seq![], infos: Map::empty(), absent: Set::empty() }
}

/// A resolution keeps within its replies: what is left over is an end of what there was.
pub proof fn visit_uses_replies_in_order(
    databases: DatabasesModel,
    package: Seq<char>,
    ancestors: Set<Seq<char>>,
    progress: Progress,
    replies: Seq<Reply>,
)
    ensures
        visit(databases, package, ancestors, progress, replies) matches Outcome::Done { rest, .. }
            ==> rest.is_suffix_of(replies),
    decreases replies.len(), 0nat,
{
    if !progress.order.contains(package) && !ancestors.contains(package) && replies.len() > 0 {
        if let Reply::Found(info) = replies[0] {
            visit_dependencies_uses_replies_in_order(
                databases,
                package,
                info.dependencies(),
                ancestors.insert(package),
                progress,
                replies.drop_first(),
            );
            lemma_suffix_of_tail(replies);
        }
    } else {
        assert(replies.is_suffix_of(replies));
    }
}

proof fn lemma_suffix_of_tail(replies: Seq<Reply>)
    requires
        replies.len() > 0,
    ensures
        forall|rest: Seq<Reply>|
            #[trigger] rest.is_suffix_of(replies.drop_first()) ==> rest.is_suffix_of(replies),
{
    assert forall|rest: Seq<Reply>| #[trigger] rest.is_suffix_of(replies.drop_first()) implies
        rest.is_suffix_of(replies) by {
        let tail = replies.drop_first();
        assert(tail.subrange(tail.len() - rest.len(), tail.len() as int) =~= replies.subrange(
            replies.len() - rest.len(),
            replies.len() as int,
        ));
    }
}

proof fn lemma_suffix_is_transitive(a: Seq<Reply>, b: Seq<Reply>, c: Seq<Reply>)
    requires
        a.is_suffix_of(b),
        b.is_suffix_of(c),
    ensures
        a.is_suffix_of(c),
{
    assert(b.subrange(b.len() - a.len(), b.len() as int) =~= c.subrange(
        c.len() - a.len(),
        c.len() as int,
    ));
}

proof fn visit_dependencies_uses_replies_in_order(
    databases: DatabasesModel,
    package: Seq<char>,
    dependencies: Seq<Seq<char>>,
    ancestors: Set<Seq<char>>,
    progress: Progress,
    replies: Seq<Reply>,
)
    ensures
        visit_dependencies(
            databases,
            package,
            dependencies,
            ancestors,
            progress,
            replies,
        ) matches Outcome::Done { rest, .. } ==> rest.is_suffix_of(replies),
    decreases replies.len(), dependencies.len(),
{
    if dependencies.len() > 0 {
        let dep = dep_name(dependencies[0]);
        let others = dependencies.drop_first();
        if is_settled(databases, package, dep) {
            visit_dependencies_uses_replies_in_order(
                databases,
                package,
                others,
                ancestors,
                progress,
                replies,
            );
        } else if replies.len() > 0 {
            let tail = replies.drop_first();
            lemma_suffix_of_tail(replies);
            match replies[0] {
                Reply::Failed(_) => {},
                Reply::Missing => {
                    visit_dependencies_uses_replies_in_order(
                        databases,
                        package,
                        others,
                        ancestors,
                        Progress { absent: progress.absent.insert(dep), ..progress },
                        tail,
                    );
                },
                Reply::Found(_) => {
                    visit_uses_replies_in_order(databases, dep, ancestors, progress, tail);
                    if let Outcome::Done { progress: reached, rest } = visit(
                        databases,
                        dep,
                        ancestors,
                        progress,
                        tail,
                    ) {
                        visit_dependencies_uses_replies_in_order(
                            databases,
                            package,
                            others,
                            ancestors,
                            reached,
                            rest,
                        );
                        if let Outcome::Done { rest: last, .. } = visit_dependencies(
                            databases,
                            package,
                            others,
                            ancestors,
                            reached,
                            rest,
                        ) {
                            lemma_suffix_is_transitive(last, rest, tail);
                        }
                    }
                },
            }
        }
    } else {
        assert(replies.is_suffix_of(replies));
    }
}

proof fn lemma_longer_replies(replies: Seq<Reply>, more: Seq<Reply>)
    requires
        replies.len() > 0,
    ensures
        (replies + more)[0] == replies[0],
        (replies + more).drop_first() == replies.drop_first() + more,
{
    assert((replies + more).drop_first() =~= replies.drop_first() + more);
}

/// The outcome with more replies at hand: an end or a failure stays what it was.
pub open spec fn with_more(outcome: Outcome, more: Seq<Reply>) -> Outcome {
    match outcome {
        Outcome::Done { progress, rest } => Outcome::Done { progress, rest: rest + more },
        other => other,
    }
}

pub(crate) proof fn lemma_visit_with_more_replies(
    databases: DatabasesModel,
    package: Seq<char>,
    ancestors: Set<Seq<char>>,
    progress: Progress,
    replies: Seq<Reply>,
    more: Seq<Reply>,
)
    ensures
        ({
            let outcome = visit(databases, package, ancestors, progress, replies);
            outcome is Ask || visit(databases, package, ancestors, progress, replies + more)
                == with_more(outcome, more)
        }),
    decreases replies.len(), 0nat,
{
    if !progress.order.contains(package) && !ancestors.contains(package) && replies.len() > 0 {
        lemma_longer_replies(replies, more);
        if let Reply::Found(info) = replies[0] {
            lemma_visit_dependencies_with_more_replies(
                databases,
                package,
                info.dependencies(),
                ancestors.insert(package),
                progress,
                replies.drop_first(),
                more,
            );
        }
    }
}

proof fn lemma_visit_dependencies_with_more_replies(
    databases: DatabasesModel,
    package: Seq<char>,
    dependencies: Seq<Seq<char>>,
    ancestors: Set<Seq<char>>,
    progress: Progress,
    replies: Seq<Reply>,
    more: Seq<Reply>,
)
    ensures
        ({
            let outcome = visit_dependencies(
                databases,
                package,
                dependencies,
                ancestors,
                progress,
                replies,
            );
            outcome is Ask || visit_dependencies(
                databases,
                package,
                dependencies,
                ancestors,
                progress,
                replies + more,
            ) == with_more(outcome, more)
        }),
    decreases replies.len(), dependencies.len(),
{
    if dependencies.len() > 0 {
        let dep = dep_name(dependencies[0]);
        let others = dependencies.drop_first();
        if is_settled(databases, package, dep) {
            lemma_visit_dependencies_with_more_replies(
                databases,
                package,
                others,
                ancestors,
                progress,
                replies,
                more,
            );
        } else if replies.len() > 0 {
            let tail = replies.drop_first();
            lemma_longer_replies(replies, more);
            match replies[0] {
                Reply::Failed(_) => {},
                Reply::Missing => {
                    lemma_visit_dependencies_with_more_replies(
                        databases,
                        package,
                        others,
                        ancestors,
                        Progress { absent: progress.absent.insert(dep), ..progress },
                        tail,
                        more,
                    );
                },
                Reply::Found(_) => {
                    lemma_visit_with_more_replies(
                        databases,
                        dep,
                        ancestors,
                        progress,
                        tail,
                        more,
                    );
                    visit_uses_replies_in_order(databases, dep, ancestors, progress, tail);
                    if let Outcome::Done { progress: reached, rest } = visit(
                        databases,
                        dep,
                        ancestors,
                        progress,
                        tail,
                    ) {
                        lemma_visit_dependencies_with_more_replies(
                            databases,
                            package,
                            others,
                            ancestors,
                            reached,
                            rest,
                            more,
                        );
                    }
                },
            }
        }
    }
}

/// More replies change nothing that the replies before them have settled: a finished order stays
/// as it is and leaves them over, and a failure stays the same failure.
pub proof fn settled_outcome_ignores_more_replies(
    databases: DatabasesModel,
    targets: Seq<Seq<char>>,
    progress: Progress,
    replies: Seq<Reply>,
    more: Seq<Reply>,
)
    requires
        !(visit_targets(databases, targets, progress, replies) is Ask),
    ensures
        visit_targets(databases, targets, progress, replies + more) == with_more(
            visit_targets(databases, targets, progress, replies),
            more,
        ),
    decreases targets.len(),
{
    if targets.len() > 0 {
        lemma_visit_with_more_replies(
            databases,
            targets[0],
            Set::empty(),
            progress,
            replies,
            more,
        );
        if let Outcome::Done { progress: reached, rest } = visit(
            databases,
            targets[0],
            Set::empty(),
            progress,
            replies,
        ) {
            settled_outcome_ignores_more_replies(
                databases,
                targets.drop_first(),
                reached,
                rest,
                more,
            );
        }
    }
}

/// Why resolving could not go on.
#[derive(Debug)]
pub enum Stop {
    /// The AUR has to be asked about this package.
    Ask(String),
    /// Resolving failed, with this message.
    Failed(String),
}

impl Stop {
    /// Whether this is how `outcome` stopped.
    pub open spec fn tells(self, outcome: Outcome) -> bool {
        match self {
            Stop::Ask(package) => outcome == Outcome::Ask(package@),
            Stop::Failed(message) => outcome == Outcome::Failed(message@),
        }
    }
}

/// An order that is being worked out.
pub struct Resolution {
    /// The packages that can be built, each after what it needs.
    pub topo: Vec<String>,
    /// The metadata of these packages.
    pub infos: StringHashMap<AurPackageInfo>,
    /// The packages that are waiting for others.
    pub visiting: StringHashSet,
    /// The dependencies that the AUR does not have.
    pub absent: Ghost<Set<Seq<char>>>,
}

/// The texts that a table of metadata holds.
pub open spec fn info_models(infos: Map<Seq<char>, AurPackageInfo>) -> Map<Seq<char>, AurInfo> {
    infos.map_values(|info: AurPackageInfo| info@)
}

impl Resolution {
    /// What is known so far.
    pub open spec fn progress(self) -> Progress {
        Progress {
            order: texts(self.topo@),
            infos: info_models(self.infos@),
            absent: self.absent@,
        }
    }

    /// A resolution that knows nothing yet.
    pub fn new() -> (r: Resolution)
        ensures
            r.progress() == no_progress(),
            r.visiting@ == Set::<Seq<char>>::empty(),
    {
        let r = Resolution {
            topo: Vec::new(),
            infos: StringHashMap::new(),
            visiting: StringHashSet::new(),
            absent: Ghost(Set::empty()),
        };
        assert(r.progress() =~= no_progress());
        r
    }
}

/// The message for a package that depends on itself by way of others.
fn cyclic_text(package: &str) -> (r: String)
    ensures
        r@ == cyclic_message(package@),
{
    String::from_str("cyclic AUR dependency detected at '").concat(package).concat("'")
}

/// The message for a package that the AUR does not have.
fn not_found_text(package: &str) -> (r: String)
    ensures
        r@ == not_found_message(package@),
{
    String::from_str("AUR package '").concat(package).concat("' not found")
}

/// Adds `package` and all that it needs from the AUR to `state`, reading the replies from place
/// `used` on. A package that is waiting already changes nothing. After any other stop `state` and
/// `used` are of no further use.
pub fn collect_aur_dependency_graph(
    databases: &Databases,
    package: &str,
    state: &mut Resolution,
    replies: &Vec<Fetched>,
    used: &mut usize,
) -> (r: Result<(), Stop>)
    requires
        *old(used) <= replies@.len(),
    ensures
        match r {
            Ok(()) => {
                &&& *old(used) <= *final(used) <= replies@.len()
                &&& final(state).visiting@ == old(state).visiting@
                &&& visit(
                    databases@,
                    package@,
                    old(state).visiting@,
                    old(state).progress(),
                    reply_models(replies@).skip(*old(used) as int),
                ) == (Outcome::Done {
                    progress: final(state).progress(),
                    rest: reply_models(replies@).skip(*final(used) as int),
                })
            },
            Err(stop) => {
                &&& stop.tells(
                    visit(
                        databases@,
                        package@,
                        old(state).visiting@,
                        old(state).progress(),
                        reply_models(replies@).skip(*old(used) as int),
                    ),
                )
                &&& old(state).visiting@.contains(package@) ==> {
                    &&& final(state).progress() == old(state).progress()
                    &&& final(state).visiting@ == old(state).visiting@
                    &&& *final(used) == *old(used)
                }
            },
        },
    decreases replies@.len() - *old(used),
{
    if list_contains(&state.topo, package) {
        return Ok(());
    }
    let ghost all = reply_models(replies@);
    let ghost ancestors = state.visiting@;
    let ghost progress = state.progress();
    let ghost start = *used as int;
    let ghost given = all.skip(start);
    if !state.visiting.insert(package.to_owned()) {
        assert(state.visiting@ =~= ancestors);
        return Err(Stop::Failed(cyclic_text(package)));
    }
    assert(state.progress() == progress);
    if *used == replies.len() {
        return Err(Stop::Ask(package.to_owned()));
    }
    assert(given[0] == replies@[start]@);
    assert(given.drop_first() =~= all.skip(start + 1));
    let info = match &replies[*used] {
        Fetched::Failed(reason) => {
            return Err(Stop::Failed(reason.clone()));
        },
        Fetched::Missing => {
            return Err(Stop::Failed(not_found_text(package)));
        },
        Fetched::Found(info) => info.clone(),
    };
    *used = *used + 1;
    let dependencies = aur_dependencies(&info);
    let ghost needs = texts(dependencies@);
    let n: usize = dependencies.len();
    let mut i: usize = 0;
    let ghost whole = visit_dependencies(
        databases@,
        package@,
        needs,
        ancestors.insert(package@),
        progress,
        given.drop_first(),
    );
    assert(needs.skip(0) =~= needs);
    while i < n
        invariant
            i <= n == dependencies@.len(),
            needs == texts(dependencies@),
            all == reply_models(replies@),
            start < *used <= replies@.len(),
            start == *old(used),
            ancestors == old(state).visiting@,
            !ancestors.contains(package@),
            state.visiting@ == ancestors.insert(package@),
            whole == visit_dependencies(
                databases@,
                package@,
                needs.skip(i as int),
                ancestors.insert(package@),
                state.progress(),
                all.skip(*used as int),
            ),
            visit(
                databases@,
                package@,
                old(state).visiting@,
                old(state).progress(),
                all.skip(*old(used) as int),
            ) == (match whole {
                Outcome::Done { progress: reached, rest } => Outcome::Done {
                    progress: Progress {
                        order: reached.order.push(package@),
                        infos: reached.infos.insert(package@, info@),
                        absent: reached.absent,
                    },
                    rest,
                },
                stopped => stopped,
            }),
        decreases n - i,
    {
        let ghost here = needs.skip(i as int);
        assert(here[0] == dependencies@[i as int]@);
        assert(here.drop_first() =~= needs.skip(i + 1));
        let dep = normalize_dep_name(dependencies[i].as_str());
        i += 1;
        if dep.as_str().is_empty() || same(dep.as_str(), package) {
            continue;
        }
        if is_installed(&databases.local, dep.as_str()) {
            continue;
        }
        if find_sync_pkg(&databases.sync, dep.as_str(), Source::Arch).is_some() {
            continue;
        }
        assert(!is_settled(databases@, package@, dep@));
        if *used == replies.len() {
            return Err(Stop::Ask(dep));
        }
        assert(all.skip(*used as int)[0] == replies@[*used as int]@);
        assert(all.skip(*used as int).drop_first() =~= all.skip(*used + 1));
        match &replies[*used] {
            Fetched::Failed(reason) => {
                return Err(Stop::Failed(reason.clone()));
            },
            Fetched::Missing => {
                *used = *used + 1;
                proof {
                    state.absent@ = state.absent@.insert(dep@);
                }
            },
            Fetched::Found(_) => {
                *used = *used + 1;
                collect_aur_dependency_graph(databases, dep.as_str(), state, replies, used)?;
            },
        }
    }
    assert(needs.skip(n as int) =~= Seq::<Seq<char>>::empty());
    let ghost reached = state.progress();
    state.infos.insert(package.to_owned(), info);
    state.visiting.remove(package);
    state.topo.push(package.to_owned());
    assert(state.visiting@ =~= ancestors);
    assert(state.progress() =~= (Progress {
        order: reached.order.push(package@),
        infos: reached.infos.insert(package@, info@),
        absent: reached.absent,
    }));
    Ok(())
}

/// Works out the order in which the targets and what they need from the AUR have to be built, as
/// far as the replies lead.
pub fn resolve_targets(
    databases: &Databases,
    targets: &Vec<String>,
    replies: &Vec<Fetched>,
) -> (r: Result<Resolution, Stop>)
    ensures
        match r {
            Ok(state) => visit_targets(
                databases@,
                texts(targets@),
                no_progress(),
                reply_models(replies@),
            ) matches Outcome::Done { progress, .. } && progress == state.progress(),
            Err(stop) => stop.tells(
                visit_targets(
                    databases@,
                    texts(targets@),
                    no_progress(),
                    reply_models(replies@),
                ),
            ),
        },
{
    let ghost wanted = texts(targets@);
    let ghost all = reply_models(replies@);
    let mut state = Resolution::new();
    let mut used: usize = 0;
    let mut i: usize = 0;
    assert(wanted.skip(0) =~= wanted);
    assert(all.skip(0) =~= all);
    while i < targets.len()
        invariant
            i <= targets@.len(),
            used <= replies@.len(),
            wanted == texts(targets@),
            all == reply_models(replies@),
            state.visiting@ == Set::<Seq<char>>::empty(),
            visit_targets(databases@, wanted, no_progress(), all) == visit_targets(
                databases@,
                wanted.skip(i as int),
                state.progress(),
                all.skip(used as int),
            ),
        decreases targets@.len() - i,
    {
        assert(wanted.skip(i as int)[0] == targets@[i as int]@);
        assert(wanted.skip(i as int).drop_first() =~= wanted.skip(i + 1));
        collect_aur_dependency_graph(
            databases,
            targets[i].as_str(),
            &mut state,
            replies,
            &mut used,
        )?;
        i += 1;
    }
    Ok(state)
}

/// Whether a dependency of `package` is taken care of: it is settled, or the AUR does not have it,
/// or it stands in `order`.
pub open spec fn is_covered(
    databases: DatabasesModel,
    package: Seq<char>,
    dependency: Seq<char>,
    order: Seq<Seq<char>>,
    absent: Set<Seq<char>>,
) -> bool {
    let dep = dep_name(dependency);
    is_settled(databases, package, dep) || absent.contains(dep) || order.contains(dep)
}

/// Whether every dependency in the list is taken care of.
pub open spec fn all_covered(
    databases: DatabasesModel,
    package: Seq<char>,
    dependencies: Seq<Seq<char>>,
    order: Seq<Seq<char>>,
    absent: Set<Seq<char>>,
) -> bool {
    forall|k: int|
        0 <= k < dependencies.len() ==> is_covered(
            databases,
            package,
            #[trigger] dependencies[k],
            order,
            absent,
        )
}

/// Whether an order can be built from front to back: no package stands in it twice, there is
/// metadata for exactly its packages, and what a package needs from the AUR stands before it.
pub open spec fn is_buildable(databases: DatabasesModel, progress: Progress) -> bool {
    &&& progress.order.no_duplicates()
    &&& progress.infos.dom() == progress.order.to_set()
    &&& forall|i: int|
        0 <= i < progress.order.len() ==> all_covered(
            databases,
            #[trigger] progress.order[i],
            progress.infos[progress.order[i]].dependencies(),
            progress.order.take(i),
            progress.absent,
        )
}

/// Whether `later` keeps all that `earlier` knows, and has put none of `ancestors` in the order.
pub open spec fn builds_on(
    earlier: Progress,
    later: Progress,
    ancestors: Set<Seq<char>>,
) -> bool {
    &&& earlier.order.is_prefix_of(later.order)
    &&& earlier.absent.subset_of(later.absent)
    &&& forall|x: Seq<char>|
        ancestors.contains(x) && #[trigger] later.order.contains(x) ==> earlier.order.contains(x)
}

proof fn lemma_builds_on_is_transitive(
    a: Progress,
    b: Progress,
    c: Progress,
    ancestors: Set<Seq<char>>,
)
    requires
        builds_on(a, b, ancestors),
        builds_on(b, c, ancestors),
    ensures
        builds_on(a, c, ancestors),
{
    assert(a.order =~= c.order.subrange(0, a.order.len() as int)) by {
        assert(b.order.subrange(0, a.order.len() as int) =~= c.order.subrange(
            0,
            b.order.len() as int,
        ).subrange(0, a.order.len() as int));
    }
}

proof fn lemma_kept_in_order(earlier: Progress, later: Progress, ancestors: Set<Seq<char>>)
    requires
        builds_on(earlier, later, ancestors),
    ensures
        forall|x: Seq<char>| #[trigger] earlier.order.contains(x) ==> later.order.contains(x),
{
    assert forall|x: Seq<char>| #[trigger] earlier.order.contains(x) implies later.order.contains(
        x,
    ) by {
        let i = choose|i: int| 0 <= i < earlier.order.len() && earlier.order[i] == x;
        assert(later.order.subrange(0, earlier.order.len() as int)[i] == x);
        assert(later.order[i] == x);
    }
}

proof fn lemma_absence_keeps_buildable(
    databases: DatabasesModel,
    progress: Progress,
    dep: Seq<char>,
)
    requires
        is_buildable(databases, progress),
    ensures
        is_buildable(
            databases,
            Progress { absent: progress.absent.insert(dep), ..progress },
        ),
{
    let later = Progress { absent: progress.absent.insert(dep), ..progress };
    assert forall|i: int| 0 <= i < later.order.len() implies all_covered(
        databases,
        #[trigger] later.order[i],
        later.infos[later.order[i]].dependencies(),
        later.order.take(i),
        later.absent,
    ) by {
        let package = progress.order[i];
        let needs = progress.infos[package].dependencies();
        assert forall|k: int| 0 <= k < needs.len() implies is_covered(
            databases,
            package,
            #[trigger] needs[k],
            later.order.take(i),
            later.absent,
        ) by {
            assert(is_covered(
                databases,
                package,
                needs[k],
                progress.order.take(i),
                progress.absent,
            ));
        }
    }
}

proof fn lemma_visit_is_sound(
    databases: DatabasesModel,
    package: Seq<char>,
    ancestors: Set<Seq<char>>,
    progress: Progress,
    replies: Seq<Reply>,
)
    requires
        is_buildable(databases, progress),
    ensures
        visit(databases, package, ancestors, progress, replies) matches Outcome::Done {
            progress: later,
            ..
        } ==> is_buildable(databases, later) && builds_on(progress, later, ancestors)
            && later.order.contains(package),
    decreases replies.len(), 0nat,
{
    if progress.order.contains(package) {
        assert(progress.order =~= progress.order.subrange(0, progress.order.len() as int));
    } else if !ancestors.contains(package) && replies.len() > 0 {
        if let Reply::Found(info) = replies[0] {
            let waiting = ancestors.insert(package);
            lemma_visit_dependencies_is_sound(
                databases,
                package,
                info.dependencies(),
                waiting,
                progress,
                replies.drop_first(),
            );
            if let Outcome::Done { progress: reached, .. } = visit_dependencies(
                databases,
                package,
                info.dependencies(),
                waiting,
                progress,
                replies.drop_first(),
            ) {
                let later = Progress {
                    order: reached.order.push(package),
                    infos: reached.infos.insert(package, info),
                    absent: reached.absent,
                };
                let n = reached.order.len() as int;
                assert(!reached.order.contains(package));
                assert(later.order[n] == package);
                assert(later.order.no_duplicates());
                assert(later.infos.dom() =~= later.order.to_set()) by {
                    assert forall|x: Seq<char>| later.infos.dom().contains(x) implies
                        later.order.to_set().contains(x) by {
                        if x != package {
                            assert(reached.order.to_set().contains(x));
                            let i = choose|i: int| 0 <= i < n && reached.order[i] == x;
                            assert(later.order[i] == x);
                        }
                    }
                    assert forall|x: Seq<char>| later.order.to_set().contains(x) implies
                        later.infos.dom().contains(x) by {
                        let i = choose|i: int| 0 <= i <= n && later.order[i] == x;
                        if i < n {
                            assert(reached.order[i] == x);
                            assert(reached.order.to_set().contains(x));
                        }
                    }
                }
                assert forall|i: int| 0 <= i < later.order.len() implies all_covered(
                    databases,
                    #[trigger] later.order[i],
                    later.infos[later.order[i]].dependencies(),
                    later.order.take(i),
                    later.absent,
                ) by {
                    if i < n {
                        assert(later.order[i] == reached.order[i]);
                        assert(reached.order.contains(reached.order[i]));
                        assert(later.order.take(i) =~= reached.order.take(i));
                    } else {
                        assert(later.order.take(i) =~= reached.order);
                    }
                }
                assert(progress.order.is_prefix_of(later.order)) by {
                    assert(reached.order.subrange(0, progress.order.len() as int)
                        =~= later.order.subrange(0, progress.order.len() as int));
                }
                assert forall|x: Seq<char>|
                    ancestors.contains(x) && #[trigger] later.order.contains(x) implies
                    progress.order.contains(x) by {
                    let i = choose|i: int| 0 <= i <= n && later.order[i] == x;
                    if i < n {
                        assert(reached.order[i] == x);
                        assert(reached.order.contains(x));
                        assert(waiting.contains(x));
                    }
                }
            }
        }
    }
}

proof fn lemma_visit_dependencies_is_sound(
    databases: DatabasesModel,
    package: Seq<char>,
    dependencies: Seq<Seq<char>>,
    ancestors: Set<Seq<char>>,
    progress: Progress,
    replies: Seq<Reply>,
)
    requires
        is_buildable(databases, progress),
    ensures
        visit_dependencies(
            databases,
            package,
            dependencies,
            ancestors,
            progress,
            replies,
        ) matches Outcome::Done { progress: later, .. } ==> is_buildable(databases, later)
            && builds_on(progress, later, ancestors) && all_covered(
            databases,
            package,
            dependencies,
            later.order,
            later.absent,
        ),
    decreases replies.len(), dependencies.len(),
{
    if dependencies.len() == 0 {
        assert(progress.order =~= progress.order.subrange(0, progress.order.len() as int));
    } else {
        let dep = dep_name(dependencies[0]);
        let others = dependencies.drop_first();
        let outcome = visit_dependencies(
            databases,
            package,
            dependencies,
            ancestors,
            progress,
            replies,
        );
        if is_settled(databases, package, dep) {
            lemma_visit_dependencies_is_sound(
                databases,
                package,
                others,
                ancestors,
                progress,
                replies,
            );
            if let Outcome::Done { progress: later, .. } = outcome {
                lemma_cover_first(databases, package, dependencies, later);
            }
        } else if replies.len() > 0 {
            let tail = replies.drop_first();
            match replies[0] {
                Reply::Failed(_) => {},
                Reply::Missing => {
                    let noted = Progress { absent: progress.absent.insert(dep), ..progress };
                    lemma_absence_keeps_buildable(databases, progress, dep);
                    lemma_visit_dependencies_is_sound(
                        databases,
                        package,
                        others,
                        ancestors,
                        noted,
                        tail,
                    );
                    if let Outcome::Done { progress: later, .. } = outcome {
                        assert(progress.order =~= noted.order.subrange(
                            0,
                            progress.order.len() as int,
                        ));
                        lemma_builds_on_is_transitive(progress, noted, later, ancestors);
                        lemma_cover_first(databases, package, dependencies, later);
                    }
                },
                Reply::Found(_) => {
                    lemma_visit_is_sound(databases, dep, ancestors, progress, tail);
                    visit_uses_replies_in_order(databases, dep, ancestors, progress, tail);
                    if let Outcome::Done { progress: reached, rest } = visit(
                        databases,
                        dep,
                        ancestors,
                        progress,
                        tail,
                    ) {
                        lemma_visit_dependencies_is_sound(
                            databases,
                            package,
                            others,
                            ancestors,
                            reached,
                            rest,
                        );
                        if let Outcome::Done { progress: later, .. } = outcome {
                            lemma_builds_on_is_transitive(progress, reached, later, ancestors);
                            lemma_kept_in_order(reached, later, ancestors);
                            lemma_cover_first(databases, package, dependencies, later);
                        }
                    }
                },
            }
        }
    }
}

proof fn lemma_cover_first(
    databases: DatabasesModel,
    package: Seq<char>,
    dependencies: Seq<Seq<char>>,
    later: Progress,
)
    requires
        dependencies.len() > 0,
        is_covered(databases, package, dependencies[0], later.order, later.absent),
        all_covered(
            databases,
            package,
            dependencies.drop_first(),
            later.order,
            later.absent,
        ),
    ensures
        all_covered(databases, package, dependencies, later.order, later.absent),
{
    assert forall|k: int| 0 <= k < dependencies.len() implies is_covered(
        databases,
        package,
        #[trigger] dependencies[k],
        later.order,
        later.absent,
    ) by {
        if k > 0 {
            assert(dependencies.drop_first()[k - 1] == dependencies[k]);
        }
    }
}

proof fn lemma_visit_targets_is_sound(
    databases: DatabasesModel,
    targets: Seq<Seq<char>>,
    progress: Progress,
    replies: Seq<Reply>,
)
    requires
        is_buildable(databases, progress),
    ensures
        visit_targets(databases, targets, progress, replies) matches Outcome::Done {
            progress: later,
            ..
        } ==> is_buildable(databases, later) && builds_on(progress, later, Set::empty())
            && forall|i: int| 0 <= i < targets.len() ==> later.order.contains(#[trigger] targets[i]),
    decreases targets.len(),
{
    if targets.len() == 0 {
        assert(progress.order =~= progress.order.subrange(0, progress.order.len() as int));
    } else {
        lemma_visit_is_sound(databases, targets[0], Set::empty(), progress, replies);
        if let Outcome::Done { progress: reached, rest } = visit(
            databases,
            targets[0],
            Set::empty(),
            progress,
            replies,
        ) {
            lemma_visit_targets_is_sound(databases, targets.drop_first(), reached, rest);
            if let Outcome::Done { progress: later, .. } = visit_targets(
                databases,
                targets.drop_first(),
                reached,
                rest,
            ) {
                lemma_builds_on_is_transitive(progress, reached, later, Set::empty());
                lemma_kept_in_order(reached, later, Set::empty());
                assert forall|i: int| 0 <= i < targets.len() implies later.order.contains(
                    #[trigger] targets[i],
                ) by {
                    if i > 0 {
                        assert(targets.drop_first()[i - 1] == targets[i]);
                    }
                }
            }
        }
    }
}

/// A finished order can be built from front to back and holds every target: no package stands in
/// it twice, and what a package needs from the AUR stands before it. So no package of a finished
/// order depends on itself by way of others.
pub proof fn finished_order_is_buildable(
    databases: DatabasesModel,
    targets: Seq<Seq<char>>,
    replies: Seq<Reply>,
)
    ensures
        visit_targets(databases, targets, no_progress(), replies) matches Outcome::Done {
            progress,
            ..
        } ==> is_buildable(databases, progress) && forall|i: int|
            0 <= i < targets.len() ==> progress.order.contains(#[trigger] targets[i]),
{
    assert(no_progress().infos.dom() =~= no_progress().order.to_set());
    lemma_visit_targets_is_sound(databases, targets, no_progress(), replies);
}

/// Whether the package at place `i` of an order is called for: a later one names it as a
/// dependency, and nothing else provides it.
pub open spec fn is_called_for(databases: DatabasesModel, progress: Progress, i: int) -> bool {
    exists|j: int, k: int|
        #![trigger progress.infos[progress.order[j]].dependencies()[k]]
        i < j < progress.order.len() && 0 <= k
            < progress.infos[progress.order[j]].dependencies().len() && dep_name(
            progress.infos[progress.order[j]].dependencies()[k],
        ) == progress.order[i] && !is_settled(databases, progress.order[j], progress.order[i])
}

spec fn keeps_infos(earlier: Progress, later: Progress) -> bool {
    &&& earlier.order.is_prefix_of(later.order)
    &&& forall|x: Seq<char>| #[trigger]
        earlier.order.contains(x) ==> later.infos[x] == earlier.infos[x]
}

proof fn lemma_still_called_for(
    databases: DatabasesModel,
    earlier: Progress,
    later: Progress,
    i: int,
)
    requires
        keeps_infos(earlier, later),
        0 <= i < earlier.order.len(),
        is_called_for(databases, earlier, i),
    ensures
        is_called_for(databases, later, i),
{
    let (j, k) = choose|j: int, k: int|
        #![trigger earlier.infos[earlier.order[j]].dependencies()[k]]
        i < j < earlier.order.len() && 0 <= k < earlier.infos[earlier.order[j]].dependencies().len()
            && dep_name(earlier.infos[earlier.order[j]].dependencies()[k]) == earlier.order[i]
            && !is_settled(databases, earlier.order[j], earlier.order[i]);
    let n = earlier.order.len() as int;
    assert(later.order.subrange(0, n)[i] == earlier.order[i]);
    assert(later.order.subrange(0, n)[j] == earlier.order[j]);
    assert(earlier.order.contains(earlier.order[j]));
    assert(later.infos[later.order[j]].dependencies()[k]
        == earlier.infos[earlier.order[j]].dependencies()[k]);
}

proof fn lemma_infos_are_kept_on(a: Progress, b: Progress, c: Progress)
    requires
        keeps_infos(a, b),
        keeps_infos(b, c),
    ensures
        keeps_infos(a, c),
{
    let n = a.order.len() as int;
    let m = b.order.len() as int;
    assert(a.order =~= c.order.subrange(0, n)) by {
        assert forall|i: int| 0 <= i < n implies a.order[i] == c.order[i] by {
            assert(b.order.subrange(0, n)[i] == a.order[i]);
            assert(c.order.subrange(0, m)[i] == b.order[i]);
        }
    }
    assert forall|x: Seq<char>| #[trigger] a.order.contains(x) implies c.infos[x] == a.infos[x] by {
        let i = choose|i: int| 0 <= i < n && a.order[i] == x;
        assert(b.order.subrange(0, n)[i] == x);
        assert(b.order[i] == x);
        assert(b.order.contains(x));
    }
}

spec fn is_open_dependency(
    databases: DatabasesModel,
    package: Seq<char>,
    dependencies: Seq<Seq<char>>,
    name: Seq<char>,
) -> bool {
    !is_settled(databases, package, name) && exists|k: int|
        0 <= k < dependencies.len() && dep_name(#[trigger] dependencies[k]) == name
}

proof fn lemma_visit_adds_what_is_called_for(
    databases: DatabasesModel,
    package: Seq<char>,
    ancestors: Set<Seq<char>>,
    progress: Progress,
    replies: Seq<Reply>,
)
    requires
        is_buildable(databases, progress),
    ensures
        visit(databases, package, ancestors, progress, replies) matches Outcome::Done {
            progress: later,
            ..
        } ==> keeps_infos(progress, later) && forall|i: int|
            progress.order.len() <= i < later.order.len() ==> #[trigger] later.order[i] == package
                || is_called_for(databases, later, i),
    decreases replies.len(), 0nat,
{
    if progress.order.contains(package) {
        assert(progress.order =~= progress.order.subrange(0, progress.order.len() as int));
    } else if !ancestors.contains(package) && replies.len() > 0 {
        if let Reply::Found(info) = replies[0] {
            let waiting = ancestors.insert(package);
            let needed = info.dependencies();
            let rest = replies.drop_first();
            lemma_visit_dependencies_is_sound(databases, package, needed, waiting, progress, rest);
            lemma_dependencies_add_what_is_called_for(
                databases,
                package,
                needed,
                waiting,
                progress,
                rest,
            );
            if let Outcome::Done { progress: reached, .. } = visit_dependencies(
                databases,
                package,
                needed,
                waiting,
                progress,
                rest,
            ) {
                let later = Progress {
                    order: reached.order.push(package),
                    infos: reached.infos.insert(package, info),
                    absent: reached.absent,
                };
                let n = reached.order.len() as int;
                assert(!reached.order.contains(package));
                assert(reached.order =~= later.order.subrange(0, n));
                assert(keeps_infos(reached, later));
                lemma_infos_are_kept_on(progress, reached, later);
                assert forall|i: int| progress.order.len() <= i < later.order.len() implies
                    #[trigger] later.order[i] == package || is_called_for(databases, later, i) by {
                    if i < n {
                        assert(reached.order[i] == later.order[i]);
                        if is_called_for(databases, reached, i) {
                            lemma_still_called_for(databases, reached, later, i);
                        } else {
                            let k = choose|k: int|
                                0 <= k < needed.len() && dep_name(#[trigger] needed[k])
                                    == reached.order[i];
                            assert(later.infos[later.order[n]].dependencies()[k] == needed[k]);
                        }
                    }
                }
            }
        }
    }
}

proof fn lemma_dependencies_add_what_is_called_for(
    databases: DatabasesModel,
    package: Seq<char>,
    dependencies: Seq<Seq<char>>,
    ancestors: Set<Seq<char>>,
    progress: Progress,
    replies: Seq<Reply>,
)
    requires
        is_buildable(databases, progress),
    ensures
        visit_dependencies(
            databases,
            package,
            dependencies,
            ancestors,
            progress,
            replies,
        ) matches Outcome::Done { progress: later, .. } ==> keeps_infos(progress, later) && forall|
            i: int,
        |
            progress.order.len() <= i < later.order.len() ==> #[trigger] is_called_for(
                databases,
                later,
                i,
            ) || is_open_dependency(databases, package, dependencies, later.order[i]),
    decreases replies.len(), dependencies.len(),
{
    if dependencies.len() == 0 {
        assert(progress.order =~= progress.order.subrange(0, progress.order.len() as int));
    } else {
        let dep = dep_name(dependencies[0]);
        let others = dependencies.drop_first();
        let outcome = visit_dependencies(
            databases,
            package,
            dependencies,
            ancestors,
            progress,
            replies,
        );
        if is_settled(databases, package, dep) {
            lemma_dependencies_add_what_is_called_for(
                databases,
                package,
                others,
                ancestors,
                progress,
                replies,
            );
            if let Outcome::Done { progress: later, .. } = outcome {
                lemma_called_for_by_one_more(
                    databases,
                    package,
                    dependencies,
                    progress.order.len() as int,
                    later,
                );
            }
        } else if replies.len() > 0 {
            let rest = replies.drop_first();
            match replies[0] {
                Reply::Failed(_) => {},
                Reply::Missing => {
                    let next = Progress { absent: progress.absent.insert(dep), ..progress };
                    lemma_absence_keeps_buildable(databases, progress, dep);
                    lemma_dependencies_add_what_is_called_for(
                        databases,
                        package,
                        others,
                        ancestors,
                        next,
                        rest,
                    );
                    if let Outcome::Done { progress: later, .. } = outcome {
                        assert forall|x: Seq<char>| #[trigger]
                            progress.order.contains(x) implies later.infos[x]
                            == progress.infos[x] by {
                            assert(next.order.contains(x));
                        }
                        lemma_called_for_by_one_more(
                            databases,
                            package,
                            dependencies,
                            progress.order.len() as int,
                            later,
                        );
                    }
                },
                Reply::Found(_) => {
                    lemma_visit_is_sound(databases, dep, ancestors, progress, rest);
                    lemma_visit_adds_what_is_called_for(databases, dep, ancestors, progress, rest);
                    if let Outcome::Done { progress: reached, rest: left } = visit(
                        databases,
                        dep,
                        ancestors,
                        progress,
                        rest,
                    ) {
                        lemma_dependencies_add_what_is_called_for(
                            databases,
                            package,
                            others,
                            ancestors,
                            reached,
                            at_most(left, rest),
                        );
                        if let Outcome::Done { progress: later, .. } = outcome {
                            lemma_infos_are_kept_on(progress, reached, later);
                            lemma_called_for_by_one_more(
                                databases,
                                package,
                                dependencies,
                                reached.order.len() as int,
                                later,
                            );
                            assert forall|i: int|
                                progress.order.len() <= i < later.order.len() implies
                                #[trigger] is_called_for(databases, later, i)
                                || is_open_dependency(
                                databases,
                                package,
                                dependencies,
                                later.order[i],
                            ) by {
                                if i < reached.order.len() {
                                    let m = reached.order.len() as int;
                                    assert(later.order.subrange(0, m)[i] == reached.order[i]);
                                    if reached.order[i] == dep {
                                        assert(dep_name(dependencies[0]) == later.order[i]);
                                    } else {
                                        lemma_still_called_for(databases, reached, later, i);
                                    }
                                }
                            }
                        }
                    }
                },
            }
        }
    }
}

proof fn lemma_called_for_by_one_more(
    databases: DatabasesModel,
    package: Seq<char>,
    dependencies: Seq<Seq<char>>,
    start: int,
    later: Progress,
)
    requires
        dependencies.len() > 0,
        forall|i: int|
            start <= i < later.order.len() ==> #[trigger] is_called_for(databases, later, i)
                || is_open_dependency(
                databases,
                package,
                dependencies.drop_first(),
                later.order[i],
            ),
    ensures
        forall|i: int|
            start <= i < later.order.len() ==> #[trigger] is_called_for(databases, later, i)
                || is_open_dependency(databases, package, dependencies, later.order[i]),
{
    let others = dependencies.drop_first();
    assert forall|i: int| start <= i < later.order.len() implies #[trigger] is_called_for(
        databases,
        later,
        i,
    ) || is_open_dependency(databases, package, dependencies, later.order[i]) by {
        if !is_called_for(databases, later, i) {
            let k = choose|k: int|
                0 <= k < others.len() && dep_name(#[trigger] others[k]) == later.order[i];
            assert(dependencies[k + 1] == others[k]);
        }
    }
}

proof fn lemma_targets_add_what_is_called_for(
    databases: DatabasesModel,
    targets: Seq<Seq<char>>,
    progress: Progress,
    replies: Seq<Reply>,
)
    requires
        is_buildable(databases, progress),
    ensures
        visit_targets(databases, targets, progress, replies) matches Outcome::Done {
            progress: later,
            ..
        } ==> keeps_infos(progress, later) && forall|i: int|
            progress.order.len() <= i < later.order.len() ==> targets.contains(
                #[trigger] later.order[i],
            ) || is_called_for(databases, later, i),
    decreases targets.len(),
{
    if targets.len() == 0 {
        assert(progress.order =~= progress.order.subrange(0, progress.order.len() as int));
    } else {
        let others = targets.drop_first();
        lemma_visit_is_sound(databases, targets[0], Set::empty(), progress, replies);
        lemma_visit_adds_what_is_called_for(
            databases,
            targets[0],
            Set::empty(),
            progress,
            replies,
        );
        if let Outcome::Done { progress: reached, rest } = visit(
            databases,
            targets[0],
            Set::empty(),
            progress,
            replies,
        ) {
            lemma_targets_add_what_is_called_for(databases, others, reached, rest);
            if let Outcome::Done { progress: later, .. } = visit_targets(
                databases,
                targets,
                progress,
                replies,
            ) {
                lemma_infos_are_kept_on(progress, reached, later);
                assert forall|i: int| progress.order.len() <= i < later.order.len() implies
                    targets.contains(#[trigger] later.order[i]) || is_called_for(
                    databases,
                    later,
                    i,
                ) by {
                    let m = reached.order.len() as int;
                    if i < m {
                        assert(later.order.subrange(0, m)[i] == reached.order[i]);
                        if reached.order[i] == targets[0] {
                            assert(targets.contains(later.order[i]));
                        } else {
                            lemma_still_called_for(databases, reached, later, i);
                        }
                    } else if others.contains(later.order[i]) {
                        let t = choose|t: int|
                            0 <= t < others.len() && others[t] == later.order[i];
                        assert(targets[t + 1] == later.order[i]);
                    }
                }
            }
        }
    }
}

/// Nothing is built that was not asked for: every package of a finished order is a target, or a
/// dependency of a package behind it that nothing else provides.
pub proof fn nothing_else_is_built(
    databases: DatabasesModel,
    targets: Seq<Seq<char>>,
    replies: Seq<Reply>,
)
    ensures
        visit_targets(databases, targets, no_progress(), replies) matches Outcome::Done {
            progress,
            ..
        } ==> forall|i: int|
            0 <= i < progress.order.len() ==> targets.contains(#[trigger] progress.order[i]) || exists|
                j: int,
                k: int,
            |
                #![trigger progress.infos[progress.order[j]].dependencies()[k]]
                i < j < progress.order.len() && 0 <= k
                    < progress.infos[progress.order[j]].dependencies().len() && dep_name(
                    progress.infos[progress.order[j]].dependencies()[k],
                ) == progress.order[i] && progress.order[i] != progress.order[j]
                    && !databases.provides(progress.order[i]),
{
    assert(no_progress().infos.dom() =~= no_progress().order.to_set());
    lemma_targets_add_what_is_called_for(databases, targets, no_progress(), replies);
    if let Outcome::Done { progress, .. } = visit_targets(
        databases,
        targets,
        no_progress(),
        replies,
    ) {
        assert forall|i: int| 0 <= i < progress.order.len() implies targets.contains(
            #[trigger] progress.order[i],
        ) || exists|j: int, k: int|
            #![trigger progress.infos[progress.order[j]].dependencies()[k]]
            i < j < progress.order.len() && 0 <= k
                < progress.infos[progress.order[j]].dependencies().len() && dep_name(
                progress.infos[progress.order[j]].dependencies()[k],
            ) == progress.order[i] && progress.order[i] != progress.order[j]
                && !databases.provides(progress.order[i]) by {
            if !targets.contains(progress.order[i]) {
                assert(is_called_for(databases, progress, i));
            }
        }
    }
}

/// What a package of a finished order depends on is there before it: it is installed or in a
/// repository, or the AUR lacks it, or it stands before the package in the order. No package is
/// built twice, and every target is built.
pub proof fn what_a_package_needs_comes_before_it(
    databases: DatabasesModel,
    targets: Seq<Seq<char>>,
    replies: Seq<Reply>,
)
    ensures
        visit_targets(databases, targets, no_progress(), replies) matches Outcome::Done {
            progress,
            ..
        } ==> {
            &&& forall|i: int, k: int|
                #![trigger progress.infos[progress.order[i]].dependencies()[k]]
                0 <= i < progress.order.len() && 0 <= k
                    < progress.infos[progress.order[i]].dependencies().len() ==> {
                    let dep = dep_name(progress.infos[progress.order[i]].dependencies()[k]);
                    ||| dep.len() == 0
                    ||| dep == progress.order[i]
                    ||| databases.provides(dep)
                    ||| progress.absent.contains(dep)
                    ||| exists|j: int| 0 <= j < i && #[trigger] progress.order[j] == dep
                }
            &&& forall|i: int, j: int|
                0 <= i < j < progress.order.len() ==> #[trigger] progress.order[i]
                    != #[trigger] progress.order[j]
            &&& forall|t: int|
                0 <= t < targets.len() ==> exists|i: int|
                    0 <= i < progress.order.len() && #[trigger] progress.order[i]
                        == #[trigger] targets[t]
        },
{
    finished_order_is_buildable(databases, targets, replies);
    if let Outcome::Done { progress, .. } = visit_targets(
        databases,
        targets,
        no_progress(),
        replies,
    ) {
        assert forall|i: int, k: int|
            #![trigger progress.infos[progress.order[i]].dependencies()[k]]
            0 <= i < progress.order.len() && 0 <= k
                < progress.infos[progress.order[i]].dependencies().len() implies {
            let dep = dep_name(progress.infos[progress.order[i]].dependencies()[k]);
            ||| dep.len() == 0
            ||| dep == progress.order[i]
            ||| databases.provides(dep)
            ||| progress.absent.contains(dep)
            ||| exists|j: int| 0 <= j < i && #[trigger] progress.order[j] == dep
        } by {
            let needed = progress.infos[progress.order[i]].dependencies();
            let dep = dep_name(needed[k]);
            assert(is_covered(
                databases,
                progress.order[i],
                needed[k],
                progress.order.take(i),
                progress.absent,
            ));
            if progress.order.take(i).contains(dep) {
                let j = choose|j: int| 0 <= j < i && progress.order.take(i)[j] == dep;
                assert(progress.order[j] == dep);
            }
        }
        assert forall|t: int| 0 <= t < targets.len() implies exists|i: int|
            0 <= i < progress.order.len() && #[trigger] progress.order[i]
                == #[trigger] targets[t] by {
            assert(progress.order.contains(targets[t]));
        }
    }
}

/// A dependency is provided exactly if a package of its name is installed or in a repository.
pub proof fn provided_means_installed_or_in_a_repository(
    databases: DatabasesModel,
    name: Seq<char>,
)
    ensures
        databases.installed(name) <==> exists|i: int|
            0 <= i < databases.local.len() && (#[trigger] databases.local[i]).name == name,
        databases.provides(name) <==> (exists|i: int|
            0 <= i < databases.local.len() && (#[trigger] databases.local[i]).name == name) || (
        exists|d: int, i: int|
            0 <= d < databases.sync.len() && 0 <= i < databases.sync[d].packages.len() && (
            #[trigger] databases.sync[d].packages[i]).name == name),
{
    lookup_finds_the_first(databases.local, name);
    sync_lookup_finds_the_first(databases.sync, name, Source::Arch);
}

/// The first package that the AUR names is the one that was asked for; where it names none, or
/// cannot be understood or reached, that is what is told.
pub proof fn first_result_is_the_package(
    name: Seq<char>,
    results: Vec<AurPackageInfo>,
    reason: String,
)
    ensures
        results@.len() > 0 ==> answered(name, Answer::Results(results)) == Reply::Found(
            results@[0]@,
        ),
        results@.len() == 0 ==> answered(name, Answer::Results(results)) is Missing,
        answered(name, Answer::Unreachable(reason)) == Reply::Failed(reason@),
        answered(name, Answer::Unreadable(reason)) == Reply::Failed(
            "failed to parse AUR response for '"@ + name + "': "@ + reason@,
        ),
{
}

/// What a failure says names the package that it is about.
pub proof fn failures_name_the_package(package: Seq<char>)
    ensures
        cyclic_message(package) == "cyclic AUR dependency detected at '"@ + package + "'"@,
        not_found_message(package) == "AUR package '"@ + package + "' not found"@,
{
}

/// The texts of replies are those of the replies, each in its place.
pub proof fn reply_texts_are_those_of_the_replies(replies: Seq<Fetched>, i: int)
    requires
        0 <= i < replies.len(),
    ensures
        reply_models(replies).len() == replies.len(),
        replies[i] is Failed ==> reply_models(replies)[i] == Reply::Failed(replies[i]->Failed_0@),
        replies[i] is Missing ==> reply_models(replies)[i] is Missing,
        replies[i] is Found ==> reply_models(replies)[i] == Reply::Found(replies[i]->Found_0@),
{
}

/// What is known of a resolution is what it holds: the order as it is, and the metadata of every
/// package that it has some of.
pub proof fn progress_is_what_the_resolution_holds(
    state: Resolution,
    stop: Stop,
    outcome: Outcome,
    name: Seq<char>,
)
    ensures
        state.progress().order == texts(state.topo@),
        state.progress().absent == state.absent@,
        state.progress().infos.contains_key(name) <==> state.infos@.contains_key(name),
        state.infos@.contains_key(name) ==> state.progress().infos[name] == state.infos@[name]@,
        stop is Ask ==> (stop.tells(outcome) <==> outcome == Outcome::Ask(stop->Ask_0@)),
        stop is Failed ==> (stop.tells(outcome) <==> outcome == Outcome::Failed(stop->Failed_0@)),
{
}

} // verus!

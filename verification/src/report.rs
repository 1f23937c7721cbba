//! What the commands that only look something up show.

use crate::aur::{search_address, search_url, AurInfo, AurPackageInfo};
use crate::command::{repo_matches_source, Source};
use crate::database::{
    find_package, find_sync_pkg, is_installed, lookup, lookup_finds_the_first, package_models,
    sync_lookup, sync_lookup_finds_the_first, sync_models, Databases, DatabasesModel, Package,
    PackageModel, SyncModel,
};
use crate::number::{decimal, to_decimal};
use crate::order::{
    arranged, is_sorted_order, lex_less, lex_less_is_irreflexive, lex_less_is_transitive,
    sorted_order, sorted_order_goes_one_way, sorted_order_lists_every_place,
};
use crate::resolve::{unreadable_message, unreadable_text, Answer};
use crate::style::{note, notice, paint, painted, Colour};
use crate::text::{
    contains, copy_strings, join, joined, lowered, occurrence_is_a_part, occurs_in, texts,
    to_ascii_lowercase,
};
use vstd::hash_set::StringHashSet;
use vstd::prelude::*;

verus! {

/// A package that a search found.
#[derive(Debug)]
pub struct SearchEntry {
    pub name: String,
    pub version: String,
    pub repository: String,
    pub installed: bool,
    pub description: String,
}

/// The texts that a search entry holds.
#[verifier::ext_equal]
pub struct EntryModel {
    pub name: Seq<char>,
    pub version: Seq<char>,
    pub repository: Seq<char>,
    pub installed: bool,
    pub description: Seq<char>,
}

impl View for SearchEntry {
    type V = EntryModel;

    open spec fn view(&self) -> EntryModel {
        EntryModel {
            name: self.name@,
            version: self.version@,
            repository: self.repository@,
            installed: self.installed,
            description: self.description@,
        }
    }
}

/// The texts that a list of search entries holds.
pub open spec fn entry_models(entries: Seq<SearchEntry>) -> Seq<EntryModel> {
    Seq::new(entries.len(), |i: int| entries[i]@)
}

/// The names of search entries.
pub open spec fn entry_names(entries: Seq<EntryModel>) -> Seq<Seq<char>> {
    Seq::new(entries.len(), |i: int| entries[i].name)
}

/// The description of a package, or the empty text.
pub open spec fn described(package: PackageModel) -> Seq<char> {
    match package.description {
        Some(description) => description,
        None => ""@,
    }
}

/// Whether a package is what is searched for: the query, in lower case, stands in its name or in
/// its description, letter case of the description aside.
pub open spec fn is_match(package: PackageModel, query: Seq<char>) -> bool {
    occurs_in(package.name, query) || occurs_in(lowered(described(package)), query)
}

/// The entry for a package of a repository.
pub open spec fn entry(
    package: PackageModel,
    repository: Seq<char>,
    local: Seq<PackageModel>,
) -> EntryModel {
    EntryModel {
        name: package.name,
        version: package.version,
        repository,
        installed: lookup(local, package.name) is Some,
        description: described(package),
    }
}

/// `found`, and behind it the packages of a repository that match and whose names were not found
/// before.
pub open spec fn search_packages(
    packages: Seq<PackageModel>,
    repository: Seq<char>,
    query: Seq<char>,
    local: Seq<PackageModel>,
    found: Seq<EntryModel>,
) -> Seq<EntryModel>
    decreases packages.len(),
{
    if packages.len() == 0 {
        found
    } else {
        let next = if is_match(packages[0], query) && !entry_names(found).contains(
            packages[0].name,
        ) {
            found.push(entry(packages[0], repository, local))
        } else {
            found
        };
        search_packages(packages.drop_first(), repository, query, local, next)
    }
}

/// `found`, and behind it what the repositories that a source allows have.
pub open spec fn search_repositories(
    sync: Seq<SyncModel>,
    query: Seq<char>,
    source: Source,
    local: Seq<PackageModel>,
    found: Seq<EntryModel>,
) -> Seq<EntryModel>
    decreases sync.len(),
{
    if sync.len() == 0 {
        found
    } else {
        let next = if source != Source::Aur {
            search_packages(sync[0].packages, sync[0].name, query, local, found)
        } else {
            found
        };
        search_repositories(sync.drop_first(), query, source, local, next)
    }
}

/// All that a search finds, in the order of the repositories.
pub open spec fn search_hits(
    databases: DatabasesModel,
    query: Seq<char>,
    source: Source,
) -> Seq<EntryModel> {
    search_repositories(databases.sync, lowered(query), source, databases.local, seq![])
}

/// Whether `seen` holds the names of the entries.
spec fn holds_names(seen: Set<Seq<char>>, found: Seq<EntryModel>) -> bool {
    forall|name: Seq<char>| seen.contains(name) == #[trigger] entry_names(found).contains(name)
}

proof fn lemma_name_added(found: Seq<EntryModel>, added: EntryModel)
    ensures
        entry_names(found.push(added)) == entry_names(found).push(added.name),
        forall|name: Seq<char>| #[trigger]
            entry_names(found.push(added)).contains(name) == (name == added.name || entry_names(
                found,
            ).contains(name)),
{
    let before = entry_names(found);
    let after = entry_names(found.push(added));
    assert(after =~= before.push(added.name));
    assert forall|name: Seq<char>| #[trigger] after.contains(name) == (name == added.name
        || before.contains(name)) by {
        if before.contains(name) {
            let i = choose|i: int| 0 <= i < before.len() && before[i] == name;
            assert(after[i] == name);
        }
        if name == added.name {
            assert(after[before.len() as int] == name);
        }
        if after.contains(name) {
            let i = choose|i: int| 0 <= i < after.len() && after[i] == name;
            if i < before.len() {
                assert(before[i] == name);
            }
        }
    }
}

/// Adds the packages of a repository that match to `found`.
fn add_matches(
    packages: &Vec<Package>,
    repository: &str,
    query: &str,
    local: &Vec<Package>,
    seen: &mut StringHashSet,
    found: &mut Vec<SearchEntry>,
)
    requires
        holds_names(old(seen)@, entry_models(old(found)@)),
    ensures
        holds_names(final(seen)@, entry_models(final(found)@)),
        entry_models(final(found)@) == search_packages(
            package_models(packages@),
            repository@,
            query@,
            package_models(local@),
            entry_models(old(found)@),
        ),
{
    let ghost all = package_models(packages@);
    let ghost installed = package_models(local@);
    let ghost whole = search_packages(all, repository@, query@, installed, entry_models(found@));
    let mut i: usize = 0;
    assert(all.skip(0) =~= all);
    while i < packages.len()
        invariant
            i <= packages@.len(),
            all == package_models(packages@),
            installed == package_models(local@),
            holds_names(seen@, entry_models(found@)),
            whole == search_packages(
                all.skip(i as int),
                repository@,
                query@,
                installed,
                entry_models(found@),
            ),
        decreases packages@.len() - i,
    {
        let ghost held = entry_models(found@);
        assert(all.skip(i as int)[0] == packages@[i as int]@);
        assert(all.skip(i as int).drop_first() =~= all.skip(i + 1));
        let package = &packages[i];
        i += 1;
        let description = match &package.description {
            Some(text) => text.clone(),
            None => String::from_str(""),
        };
        if !contains(package.name.as_str(), query) && !contains(
            to_ascii_lowercase(description.as_str()).as_str(),
            query,
        ) {
            continue;
        }
        if !seen.insert(package.name.clone()) {
            assert(seen@ =~= seen@.insert(package.name@));
            continue;
        }
        found.push(
            SearchEntry {
                name: package.name.clone(),
                version: package.version.clone(),
                repository: repository.to_owned(),
                installed: is_installed(local, package.name.as_str()),
                description,
            },
        );
        proof {
            let added = entry(package@, repository@, installed);
            assert(entry_models(found@) =~= held.push(added));
            lemma_name_added(held, added);
        }
    }
}

/// Whether the entries are the hits, sorted by name.
pub open spec fn are_sorted_hits(entries: Seq<EntryModel>, hits: Seq<EntryModel>) -> bool {
    exists|order: Seq<usize>|
        is_sorted_order(entry_names(hits), false, order) && entries == #[trigger] arranged(
            hits,
            order,
        )
}

fn sort_entries(found: &Vec<SearchEntry>) -> (r: Vec<SearchEntry>)
    ensures
        are_sorted_hits(entry_models(r@), entry_models(found@)),
{
    let ghost hits = entry_models(found@);
    let mut names: Vec<String> = Vec::new();
    let mut k: usize = 0;
    while k < found.len()
        invariant
            k <= found@.len(),
            hits == entry_models(found@),
            texts(names@) == entry_names(hits).take(k as int),
        decreases found@.len() - k,
    {
        let ghost held = texts(names@);
        names.push(found[k].name.clone());
        k += 1;
        assert(texts(names@) =~= held.push(found@[k - 1].name@));
        assert(texts(names@) =~= entry_names(hits).take(k as int));
    }
    assert(texts(names@) =~= entry_names(hits));
    let order = sorted_order(&names, false);
    let mut entries: Vec<SearchEntry> = Vec::new();
    let mut j: usize = 0;
    while j < order.len()
        invariant
            j <= order@.len(),
            hits == entry_models(found@),
            is_sorted_order(entry_names(hits), false, order@),
            entry_models(entries@) == arranged(hits, order@).take(j as int),
        decreases order@.len() - j,
    {
        let ghost held = entry_models(entries@);
        let chosen = &found[order[j]];
        entries.push(
            SearchEntry {
                name: chosen.name.clone(),
                version: chosen.version.clone(),
                repository: chosen.repository.clone(),
                installed: chosen.installed,
                description: chosen.description.clone(),
            },
        );
        j += 1;
        assert(entry_models(entries@) =~= held.push(hits[order@[j - 1] as int]));
        assert(entry_models(entries@) =~= arranged(hits, order@).take(j as int));
    }
    assert(arranged(hits, order@).take(j as int) =~= arranged(hits, order@));
    entries
}

/// Searches the repositories that a source allows: the packages whose name or description holds the
/// query, each name once, from the first repository that has it, sorted by name.
fn search_sync(databases: &Databases, query: &str, source: Source) -> (r: Vec<SearchEntry>)
    ensures
        are_sorted_hits(entry_models(r@), search_hits(databases@, query@, source)),
{
    let query_lc = to_ascii_lowercase(query);
    let ghost all = sync_models(databases.sync@);
    let ghost installed = package_models(databases.local@);
    let ghost hits = search_hits(databases@, query@, source);
    let mut seen = StringHashSet::new();
    let mut found: Vec<SearchEntry> = Vec::new();
    let mut i: usize = 0;
    assert(all.skip(0) =~= all);
    assert(entry_models(found@) =~= Seq::<EntryModel>::empty());
    assert(entry_names(entry_models(found@)) =~= Seq::<Seq<char>>::empty());
    while i < databases.sync.len()
        invariant
            i <= databases.sync@.len(),
            all == sync_models(databases.sync@),
            installed == package_models(databases.local@),
            holds_names(seen@, entry_models(found@)),
            hits == search_repositories(
                all.skip(i as int),
                query_lc@,
                source,
                installed,
                entry_models(found@),
            ),
        decreases databases.sync@.len() - i,
    {
        assert(all.skip(i as int)[0] == databases.sync@[i as int]@);
        assert(all.skip(i as int).drop_first() =~= all.skip(i + 1));
        let database = &databases.sync[i];
        i += 1;
        if !repo_matches_source(database.name.as_str(), source) {
            continue;
        }
        add_matches(
            &database.packages,
            database.name.as_str(),
            query_lc.as_str(),
            &databases.local,
            &mut seen,
            &mut found,
        );
    }
    assert(all.skip(i as int) =~= Seq::<SyncModel>::empty());
    sort_entries(&found)
}

/// A package of the AUR, as one that can be searched for.
pub open spec fn aur_package(info: AurInfo) -> PackageModel {
    PackageModel {
        name: info.name,
        version: info.version,
        description: info.description,
        depends: info.depends,
    }
}

/// The packages of the AUR, as ones that can be searched for.
pub open spec fn aur_packages(results: Seq<AurPackageInfo>) -> Seq<PackageModel> {
    Seq::new(results.len(), |i: int| aur_package(results[i]@))
}

/// What a search in the AUR finds among the packages that the AUR names: those that match, each
/// name once.
pub open spec fn aur_hits(
    results: Seq<AurPackageInfo>,
    query: Seq<char>,
    local: Seq<PackageModel>,
) -> Seq<EntryModel> {
    search_packages(aur_packages(results), "aur"@, lowered(query), local, seq![])
}

fn read_packages(results: &Vec<AurPackageInfo>) -> (r: Vec<Package>)
    ensures
        package_models(r@) == aur_packages(results@),
{
    let ghost all = aur_packages(results@);
    let mut r: Vec<Package> = Vec::new();
    let mut i: usize = 0;
    while i < results.len()
        invariant
            i <= results@.len(),
            all == aur_packages(results@),
            package_models(r@) == all.take(i as int),
        decreases results@.len() - i,
    {
        let ghost held = package_models(r@);
        let info = &results[i];
        let package = Package {
            name: info.name.clone(),
            version: info.version.clone(),
            description: match &info.description {
                Some(text) => Some(text.clone()),
                None => None,
            },
            depends: copy_strings(&info.depends),
        };
        assert(package@ =~= all[i as int]);
        r.push(package);
        i += 1;
        assert(package_models(r@) =~= held.push(all[i - 1]));
        assert(package_models(r@) =~= all.take(i as int));
    }
    assert(all.take(i as int) =~= all);
    r
}

/// Searches the AUR, by what it answered: the packages whose name or description holds the query,
/// each name once, sorted by name.
pub fn search_aur(local: &Vec<Package>, query: &str, answer: &Answer) -> (r: Result<
    Vec<SearchEntry>,
    String,
>)
    ensures
        match *answer {
            Answer::Unreachable(reason) => r matches Err(message) && message@ == reason@,
            Answer::Unreadable(reason) => r matches Err(message) && message@ == unreadable_message(
                query@,
                reason@,
            ),
            Answer::Results(results) => r matches Ok(entries) && are_sorted_hits(
                entry_models(entries@),
                aur_hits(results@, query@, package_models(local@)),
            ),
        },
{
    match answer {
        Answer::Unreachable(reason) => Err(reason.clone()),
        Answer::Unreadable(reason) => Err(unreadable_text(query, reason.as_str())),
        Answer::Results(results) => {
            let packages = read_packages(results);
            let query_lc = to_ascii_lowercase(query);
            let mut seen = StringHashSet::new();
            let mut found: Vec<SearchEntry> = Vec::new();
            assert(entry_models(found@) =~= Seq::<EntryModel>::empty());
            assert(entry_names(entry_models(found@)) =~= Seq::<Seq<char>>::empty());
            add_matches(&packages, "aur", query_lc.as_str(), local, &mut seen, &mut found);
            Ok(sort_entries(&found))
        },
    }
}

/// Where a search stands.
#[derive(Debug)]
pub enum SearchStep {
    /// The AUR has to be asked at this address.
    Ask(String),
    /// This was found.
    Found(Vec<SearchEntry>),
    /// The search failed, with this message.
    Failed(String),
}

/// Whether a search in the AUR stands at this step, once the AUR has answered.
pub open spec fn is_aur_result(
    step: SearchStep,
    local: Seq<PackageModel>,
    query: Seq<char>,
    answer: Answer,
) -> bool {
    match answer {
        Answer::Unreachable(reason) => step matches SearchStep::Failed(message) && message@
            == reason@,
        Answer::Unreadable(reason) => step matches SearchStep::Failed(message) && message@
            == unreadable_message(query, reason@),
        Answer::Results(results) => step matches SearchStep::Found(entries) && are_sorted_hits(
            entry_models(entries@),
            aur_hits(results@, query, local),
        ),
    }
}

/// Searches the AUR where that is the source, and the repositories where it is not. The answer of
/// the AUR is missing until it is known.
pub fn search(
    databases: &Databases,
    query: &str,
    source: Source,
    answer: &Option<Answer>,
) -> (r: SearchStep)
    ensures
        match (source, *answer) {
            (Source::Aur, None) => r matches SearchStep::Ask(address) && address@
                == search_address(query@),
            (Source::Aur, Some(given)) => is_aur_result(r, databases@.local, query@, given),
            _ => r matches SearchStep::Found(entries) && are_sorted_hits(
                entry_models(entries@),
                search_hits(databases@, query@, source),
            ),
        },
{
    if source != Source::Aur {
        return SearchStep::Found(search_sync(databases, query, source));
    }
    match answer {
        None => SearchStep::Ask(search_url(query)),
        Some(given) => match search_aur(&databases.local, query, given) {
            Ok(entries) => SearchStep::Found(entries),
            Err(message) => SearchStep::Failed(message),
        },
    }
}

/// Whether an entry is for a package of a list that matches.
pub open spec fn is_hit_of(
    hit: EntryModel,
    packages: Seq<PackageModel>,
    repository: Seq<char>,
    query: Seq<char>,
    local: Seq<PackageModel>,
) -> bool {
    exists|k: int|
        0 <= k < packages.len() && is_match(#[trigger] packages[k], query) && hit == entry(
            packages[k],
            repository,
            local,
        )
}

proof fn lemma_search_packages(
    packages: Seq<PackageModel>,
    repository: Seq<char>,
    query: Seq<char>,
    local: Seq<PackageModel>,
    found: Seq<EntryModel>,
)
    requires
        entry_names(found).no_duplicates(),
    ensures
        ({
            let hits = search_packages(packages, repository, query, local, found);
            &&& entry_names(hits).no_duplicates()
            &&& found.is_prefix_of(hits)
            &&& forall|i: int|
                found.len() <= i < hits.len() ==> is_hit_of(
                    #[trigger] hits[i],
                    packages,
                    repository,
                    query,
                    local,
                )
            &&& forall|k: int|
                0 <= k < packages.len() && is_match(#[trigger] packages[k], query)
                    ==> entry_names(hits).contains(packages[k].name)
        }),
    decreases packages.len(),
{
    let hits = search_packages(packages, repository, query, local, found);
    if packages.len() == 0 {
        assert(found =~= hits.subrange(0, found.len() as int));
    } else {
        let first = packages[0];
        let rest = packages.drop_first();
        let added = entry(first, repository, local);
        let fresh = is_match(first, query) && !entry_names(found).contains(first.name);
        let next = if fresh {
            found.push(added)
        } else {
            found
        };
        lemma_name_added(found, added);
        lemma_search_packages(rest, repository, query, local, next);
        assert(found =~= hits.subrange(0, found.len() as int)) by {
            assert(next =~= hits.subrange(0, next.len() as int));
            assert forall|i: int| 0 <= i < found.len() implies found[i] == hits[i] by {
                assert(next[i] == hits.subrange(0, next.len() as int)[i]);
            }
        }
        assert forall|i: int| found.len() <= i < hits.len() implies is_hit_of(
            #[trigger] hits[i],
            packages,
            repository,
            query,
            local,
        ) by {
            if i < next.len() {
                assert(hits.subrange(0, next.len() as int)[i] == added);
                assert(is_match(packages[0], query));
            } else {
                assert(is_hit_of(hits[i], rest, repository, query, local));
                let k = choose|k: int|
                    0 <= k < rest.len() && is_match(#[trigger] rest[k], query) && hits[i] == entry(
                        rest[k],
                        repository,
                        local,
                    );
                assert(packages[k + 1] == rest[k]);
            }
        }
        assert forall|k: int| 0 <= k < packages.len() && is_match(#[trigger] packages[k], query)
            implies entry_names(hits).contains(packages[k].name) by {
            if k == 0 {
                assert(entry_names(next).contains(first.name));
                let j = choose|j: int|
                    0 <= j < entry_names(next).len() && entry_names(next)[j] == first.name;
                assert(next[j] == hits.subrange(0, next.len() as int)[j]);
                assert(entry_names(hits)[j] == first.name);
            } else {
                assert(rest[k - 1] == packages[k]);
            }
        }
    }
}

proof fn lemma_search_repositories(
    sync: Seq<SyncModel>,
    query: Seq<char>,
    source: Source,
    local: Seq<PackageModel>,
    found: Seq<EntryModel>,
)
    requires
        source != Source::Aur,
        entry_names(found).no_duplicates(),
    ensures
        ({
            let hits = search_repositories(sync, query, source, local, found);
            &&& entry_names(hits).no_duplicates()
            &&& found.is_prefix_of(hits)
            &&& forall|i: int|
                found.len() <= i < hits.len() ==> exists|d: int|
                    0 <= d < sync.len() && is_hit_of(
                        #[trigger] hits[i],
                        (#[trigger] sync[d]).packages,
                        sync[d].name,
                        query,
                        local,
                    )
            &&& forall|d: int, k: int|
                0 <= d < sync.len() && 0 <= k < sync[d].packages.len() && is_match(
                    #[trigger] sync[d].packages[k],
                    query,
                ) ==> entry_names(hits).contains(sync[d].packages[k].name)
        }),
    decreases sync.len(),
{
    let hits = search_repositories(sync, query, source, local, found);
    if sync.len() == 0 {
        assert(found =~= hits.subrange(0, found.len() as int));
    } else {
        let rest = sync.drop_first();
        let next = search_packages(sync[0].packages, sync[0].name, query, local, found);
        lemma_search_packages(sync[0].packages, sync[0].name, query, local, found);
        lemma_search_repositories(rest, query, source, local, next);
        assert forall|i: int| 0 <= i < next.len() implies next[i] == hits[i] by {
            assert(next[i] == hits.subrange(0, next.len() as int)[i]);
        }
        assert forall|i: int| 0 <= i < found.len() implies found[i] == hits[i] by {
            assert(found[i] == next.subrange(0, found.len() as int)[i]);
        }
        assert(found =~= hits.subrange(0, found.len() as int));
        assert forall|i: int| found.len() <= i < hits.len() implies exists|d: int|
            0 <= d < sync.len() && is_hit_of(
                #[trigger] hits[i],
                (#[trigger] sync[d]).packages,
                sync[d].name,
                query,
                local,
            ) by {
            if i < next.len() {
                assert(is_hit_of(next[i], sync[0].packages, sync[0].name, query, local));
            } else {
                let d = choose|d: int|
                    0 <= d < rest.len() && is_hit_of(
                        hits[i],
                        (#[trigger] rest[d]).packages,
                        rest[d].name,
                        query,
                        local,
                    );
                assert(sync[d + 1] == rest[d]);
            }
        }
        assert forall|d: int, k: int|
            0 <= d < sync.len() && 0 <= k < sync[d].packages.len() && is_match(
                #[trigger] sync[d].packages[k],
                query,
            ) implies entry_names(hits).contains(sync[d].packages[k].name) by {
            let name = sync[d].packages[k].name;
            if d == 0 {
                assert(entry_names(next).contains(name));
                let j = choose|j: int|
                    0 <= j < entry_names(next).len() && entry_names(next)[j] == name;
                assert(entry_names(hits)[j] == name);
            } else {
                assert(rest[d - 1] == sync[d]);
                assert(is_match(rest[d - 1].packages[k], query));
            }
        }
    }
}

/// A search finds what there is: no name is found twice, whatever is found is a package of a
/// repository that matches, and every package of a repository that matches is found by its name.
pub proof fn search_is_sound_and_complete(
    databases: DatabasesModel,
    query: Seq<char>,
    source: Source,
)
    requires
        source != Source::Aur,
    ensures
        ({
            let hits = search_hits(databases, query, source);
            &&& entry_names(hits).no_duplicates()
            &&& forall|i: int|
                0 <= i < hits.len() ==> exists|d: int|
                    0 <= d < databases.sync.len() && is_hit_of(
                        #[trigger] hits[i],
                        (#[trigger] databases.sync[d]).packages,
                        databases.sync[d].name,
                        lowered(query),
                        databases.local,
                    )
            &&& forall|d: int, k: int|
                0 <= d < databases.sync.len() && 0 <= k < databases.sync[d].packages.len()
                    && is_match(#[trigger] databases.sync[d].packages[k], lowered(query))
                    ==> entry_names(hits).contains(databases.sync[d].packages[k].name)
        }),
{
    lemma_search_repositories(databases.sync, lowered(query), source, databases.local, seq![]);
}

/// A search in the AUR finds what the AUR names: no name is found twice, whatever is found is a
/// package of the AUR that matches, and every package that matches is found by its name.
pub proof fn aur_search_is_sound_and_complete(
    results: Seq<AurPackageInfo>,
    query: Seq<char>,
    local: Seq<PackageModel>,
)
    ensures
        ({
            let hits = aur_hits(results, query, local);
            let packages = aur_packages(results);
            &&& entry_names(hits).no_duplicates()
            &&& forall|i: int|
                0 <= i < hits.len() ==> is_hit_of(
                    #[trigger] hits[i],
                    packages,
                    "aur"@,
                    lowered(query),
                    local,
                )
            &&& forall|k: int|
                0 <= k < packages.len() && is_match(#[trigger] packages[k], lowered(query))
                    ==> entry_names(hits).contains(packages[k].name)
        }),
{
    lemma_search_packages(aur_packages(results), "aur"@, lowered(query), local, seq![]);
}

/// The lines that show a search entry.
pub open spec fn entry_lines(entry: EntryModel) -> Seq<Seq<char>> {
    let first = "  "@ + painted(Colour::Cyan, "*"@) + " "@ + entry.name + " "@ + entry.version
        + " ["@ + entry.repository + "]"@ + (if entry.installed {
        " [installed]"@
    } else {
        ""@
    });
    if entry.description.len() == 0 {
        seq![first]
    } else {
        seq![first, "    "@ + entry.description]
    }
}

/// The lines that show search entries one after another.
pub open spec fn all_entry_lines(entries: Seq<EntryModel>) -> Seq<Seq<char>>
    decreases entries.len(),
{
    if entries.len() == 0 {
        seq![]
    } else {
        all_entry_lines(entries.drop_last()) + entry_lines(entries.last())
    }
}

/// Shows what a search found, and how much it is.
pub fn search_lines(entries: &Vec<SearchEntry>) -> (r: Vec<String>)
    ensures
        texts(r@) == all_entry_lines(entry_models(entries@)) + seq![
            notice(Colour::Green, decimal(entries@.len()) + " result entries"@),
        ],
{
    let ghost all = entry_models(entries@);
    let mut lines: Vec<String> = Vec::new();
    let mut i: usize = 0;
    assert(all.take(0) =~= Seq::<EntryModel>::empty());
    assert(texts(lines@) =~= all_entry_lines(all.take(0)));
    while i < entries.len()
        invariant
            i <= entries@.len(),
            all == entry_models(entries@),
            texts(lines@) == all_entry_lines(all.take(i as int)),
        decreases entries@.len() - i,
    {
        let ghost held = texts(lines@);
        let entry = &entries[i];
        i += 1;
        let suffix = if entry.installed {
            " [installed]"
        } else {
            ""
        };
        let first = String::from_str("  ").concat(paint(Colour::Cyan, "*").as_str()).concat(
            " ",
        ).concat(entry.name.as_str()).concat(" ").concat(entry.version.as_str()).concat(
            " [",
        ).concat(entry.repository.as_str()).concat("]").concat(suffix);
        lines.push(first);
        if !entry.description.as_str().is_empty() {
            let second = String::from_str("    ").concat(entry.description.as_str());
            lines.push(second);
            assert(texts(lines@) =~= held + seq![first@, second@]);
        } else {
            assert(texts(lines@) =~= held + seq![first@]);
        }
        assert(texts(lines@) == held + entry_lines(entry@));
        assert(all.take(i as int).drop_last() =~= all.take(i - 1));
        assert(all.take(i as int).last() == entry@);
    }
    assert(all.take(i as int) =~= all);
    let ghost held = texts(lines@);
    let last = note(
        Colour::Green,
        to_decimal(entries.len() as u128).concat(" result entries").as_str(),
    );
    lines.push(last);
    assert(texts(lines@) =~= held + seq![last@]);
    lines
}

/// The line that names a package, its version and where it is.
pub open spec fn title_line(package: PackageModel, place: Seq<char>) -> Seq<char> {
    "  "@ + painted(Colour::Cyan, package.name) + " "@ + package.version + " ["@ + place + "]"@
}

/// The line that describes a package, if a description is known.
pub open spec fn description_lines(package: PackageModel) -> Seq<Seq<char>> {
    match package.description {
        Some(description) => seq!["    "@ + description],
        None => seq![],
    }
}

/// The line that lists the dependencies of a package.
pub open spec fn dependencies_line(package: PackageModel) -> Seq<char> {
    if package.depends.len() == 0 {
        "    dependencies: (none)"@
    } else {
        "    dependencies: "@ + joined(package.depends, ", "@)
    }
}

/// The line that says whether a package is installed, and in which version.
pub open spec fn status_line(installed: Option<PackageModel>) -> Seq<char> {
    match installed {
        Some(package) => "    status: installed ("@ + package.version + ")"@,
        None => "    status: not installed"@,
    }
}

/// What is shown of a package: what its repository says of it, or what was installed where no
/// repository has it. Nothing is known of any other.
pub open spec fn info_report(
    databases: DatabasesModel,
    package: Seq<char>,
    source: Source,
) -> Option<Seq<Seq<char>>> {
    let name = lowered(package);
    let installed = lookup(databases.local, name);
    match sync_lookup(databases.sync, name, source) {
        Some((repository, found)) => Some(
            seq![title_line(found, repository)] + description_lines(found) + seq![
                dependencies_line(found),
                status_line(installed),
            ],
        ),
        None => match installed {
            Some(found) => Some(
                seq![title_line(found, "local"@)] + description_lines(found) + seq![
                    "    status: installed"@,
                ],
            ),
            None => None,
        },
    }
}

fn title_text(package: &Package, place: &str) -> (r: String)
    ensures
        r@ == title_line(package@, place@),
{
    String::from_str("  ").concat(paint(Colour::Cyan, package.name.as_str()).as_str()).concat(
        " ",
    ).concat(package.version.as_str()).concat(" [").concat(place).concat("]")
}

/// Shows what is known of a package.
pub fn info(databases: &Databases, package: &str, source: Source) -> (r: Result<
    Vec<String>,
    String,
>)
    ensures
        if source == Source::Aur {
            r matches Err(message) && message@
                == "AUR info is not available through libalpm sync databases"@
        } else {
            match info_report(databases@, package@, source) {
                Some(report) => r matches Ok(lines) && texts(lines@) == report,
                None => r matches Err(message) && message@ == "package '"@ + package@
                    + "' was not found in sync/local databases"@,
            }
        },
{
    if source == Source::Aur {
        return Err(String::from_str("AUR info is not available through libalpm sync databases"));
    }
    let name = to_ascii_lowercase(package);
    let installed = find_package(&databases.local, name.as_str());
    let mut lines: Vec<String> = Vec::new();
    if let Some((repository, found)) = find_sync_pkg(&databases.sync, name.as_str(), source) {
        lines.push(title_text(found, repository));
        if let Some(description) = &found.description {
            lines.push(String::from_str("    ").concat(description.as_str()));
        }
        let dependencies = if found.depends.is_empty() {
            String::from_str("    dependencies: (none)")
        } else {
            String::from_str("    dependencies: ").concat(join(&found.depends, ", ").as_str())
        };
        lines.push(dependencies);
        let status = match installed {
            Some(local) => String::from_str("    status: installed (").concat(
                local.version.as_str(),
            ).concat(")"),
            None => String::from_str("    status: not installed"),
        };
        lines.push(status);
        assert(texts(lines@) =~= seq![title_line(found@, repository@)] + description_lines(found@)
            + seq![dependencies@, status@]);
        return Ok(lines);
    }
    match installed {
        Some(found) => {
            lines.push(title_text(found, "local"));
            if let Some(description) = &found.description {
                lines.push(String::from_str("    ").concat(description.as_str()));
            }
            lines.push(String::from_str("    status: installed"));
            assert(texts(lines@) =~= seq![title_line(found@, "local"@)] + description_lines(found@)
                + seq!["    status: installed"@]);
            Ok(lines)
        },
        None => Err(
            String::from_str("package '").concat(package).concat(
                "' was not found in sync/local databases",
            ),
        ),
    }
}

/// The names of packages.
pub open spec fn package_names(packages: Seq<PackageModel>) -> Seq<Seq<char>> {
    Seq::new(packages.len(), |i: int| packages[i].name)
}

/// The lines that list installed packages.
pub open spec fn package_lines(packages: Seq<PackageModel>) -> Seq<Seq<char>> {
    Seq::new(
        packages.len(),
        |i: int| "  "@ + packages[i].name + " "@ + painted(Colour::Yellow, packages[i].version),
    )
}

/// The line that ends the list of installed packages.
pub open spec fn count_line(count: nat) -> Seq<char> {
    notice(Colour::Green, decimal(count) + " installed package(s)"@)
}

/// Lists the installed packages, sorted by name, and counts them.
pub fn list_installed(local: &Vec<Package>, source: Source) -> (r: Result<Vec<String>, String>)
    ensures
        match r {
            Ok(lines) => {
                let packages = package_models(local@);
                &&& source != Source::Aur
                &&& exists|order: Seq<usize>|
                    is_sorted_order(package_names(packages), false, order) && texts(lines@)
                        == package_lines(#[trigger] arranged(packages, order)).push(
                        count_line(packages.len()),
                    )
            },
            Err(message) => source == Source::Aur && message@
                == "AUR listing is not available through libalpm local database"@,
        },
{
    if source == Source::Aur {
        return Err(
            String::from_str("AUR listing is not available through libalpm local database"),
        );
    }
    let ghost packages = package_models(local@);
    let mut names: Vec<String> = Vec::new();
    let mut k: usize = 0;
    while k < local.len()
        invariant
            k <= local@.len(),
            packages == package_models(local@),
            texts(names@) == package_names(packages).take(k as int),
        decreases local@.len() - k,
    {
        let ghost held = texts(names@);
        names.push(local[k].name.clone());
        k += 1;
        assert(texts(names@) =~= held.push(local@[k - 1].name@));
        assert(texts(names@) =~= package_names(packages).take(k as int));
    }
    assert(texts(names@) =~= package_names(packages));
    let order = sorted_order(&names, false);
    let ghost sorted = arranged(packages, order@);
    let mut lines: Vec<String> = Vec::new();
    let mut j: usize = 0;
    while j < order.len()
        invariant
            j <= order@.len(),
            packages == package_models(local@),
            sorted == arranged(packages, order@),
            is_sorted_order(package_names(packages), false, order@),
            texts(lines@) == package_lines(sorted).take(j as int),
        decreases order@.len() - j,
    {
        let ghost held = texts(lines@);
        let package = &local[order[j]];
        let line = String::from_str("  ").concat(package.name.as_str()).concat(" ").concat(
            paint(Colour::Yellow, package.version.as_str()).as_str(),
        );
        lines.push(line);
        j += 1;
        assert(sorted[j - 1] == package@);
        assert(texts(lines@) =~= held.push(line@));
        assert(texts(lines@) =~= package_lines(sorted).take(j as int));
    }
    let ghost held = texts(lines@);
    let last = note(
        Colour::Green,
        to_decimal(local.len() as u128).concat(" installed package(s)").as_str(),
    );
    lines.push(last);
    assert(held =~= package_lines(sorted));
    assert(texts(lines@) =~= package_lines(sorted).push(count_line(packages.len())));
    Ok(lines)
}

/// What an examination of the databases tells: the lines to show, and whether all is well.
#[derive(Debug)]
pub struct Diagnosis {
    pub lines: Vec<String>,
    pub result: Result<(), String>,
}

/// The lines that an examination shows when there are `count` repositories, and installed packages
/// or not.
pub open spec fn diagnosis_lines(count: nat, any_installed: bool) -> Seq<Seq<char>> {
    let facts = seq![
        painted(Colour::Green, "ok"@) + " libalpm initialized"@,
        notice(Colour::Cyan, "local db path: /var/lib/pacman/local"@),
        notice(Colour::Cyan, "sync db count: "@ + decimal(count)),
    ];
    let repositories = if count == 0 {
        seq![painted(Colour::Red, "fail"@) + " no sync databases registered"@]
    } else {
        seq![]
    };
    let packages = if any_installed {
        seq![painted(Colour::Green, "ok"@) + " local package database is readable"@]
    } else {
        seq![painted(Colour::Yellow, "warn"@) + " local package database appears empty"@]
    };
    let verdict = if count == 0 {
        seq![]
    } else {
        seq![notice(Colour::Green, "Your system is ready for ArchBrew"@)]
    };
    facts + repositories + packages + verdict
}

/// Examines the databases. That there is no repository is an issue; that nothing is installed is
/// only worth a warning.
pub fn doctor(databases: &Databases) -> (r: Diagnosis)
    ensures
        texts(r.lines@) == diagnosis_lines(databases.sync@.len(), databases.local@.len() > 0),
        match r.result {
            Ok(()) => databases.sync@.len() > 0,
            Err(message) => databases.sync@.len() == 0 && message@
                == "diagnostics completed with "@ + decimal(1) + " issue(s)"@,
        },
{
    let count: usize = databases.sync.len();
    let mut issues: usize = 0;
    let mut lines: Vec<String> = Vec::new();
    lines.push(paint(Colour::Green, "ok").concat(" libalpm initialized"));
    lines.push(note(Colour::Cyan, "local db path: /var/lib/pacman/local"));
    lines.push(
        note(
            Colour::Cyan,
            String::from_str("sync db count: ").concat(
                to_decimal(count as u128).as_str(),
            ).as_str(),
        ),
    );
    if count == 0 {
        lines.push(paint(Colour::Red, "fail").concat(" no sync databases registered"));
        issues = 1;
    }
    if databases.local.is_empty() {
        lines.push(paint(Colour::Yellow, "warn").concat(" local package database appears empty"));
    } else {
        lines.push(paint(Colour::Green, "ok").concat(" local package database is readable"));
    }
    let result = if issues == 0 {
        lines.push(note(Colour::Green, "Your system is ready for ArchBrew"));
        Ok(())
    } else {
        Err(
            String::from_str("diagnostics completed with ").concat(
                to_decimal(issues as u128).as_str(),
            ).concat(" issue(s)"),
        )
    };
    assert(texts(lines@) =~= diagnosis_lines(
        databases.sync@.len(),
        databases.local@.len() > 0,
    ));
    Diagnosis { lines, result }
}

/// Judges how refreshing the databases of a source ended: what is shown, or the message.
pub fn update(source: Source, failure: Option<&str>) -> (r: Result<String, String>)
    ensures
        match (source, failure) {
            (Source::Aur, _) => r matches Err(message) && message@
                == "AUR is not available through libalpm sync databases"@,
            (_, Some(reason)) => r matches Err(message) && message@
                == "sync database update failed: "@ + reason@,
            (_, None) => r matches Ok(line) && line@ == notice(
                Colour::Green,
                "Update complete"@,
            ),
        },
{
    if source == Source::Aur {
        return Err(String::from_str("AUR is not available through libalpm sync databases"));
    }
    match failure {
        Some(reason) => Err(String::from_str("sync database update failed: ").concat(reason)),
        None => Ok(note(Colour::Green, "Update complete")),
    }
}

proof fn lemma_match_is_a_part(package: PackageModel, query: Seq<char>)
    ensures
        is_match(package, query) <==> (exists|i: int, j: int|
            0 <= i <= j <= package.name.len() && #[trigger] package.name.subrange(i, j) == query)
            || (package.description is Some && exists|i: int, j: int|
            0 <= i <= j <= (package.description->0).len() && #[trigger] lowered(
                package.description->0,
            ).subrange(i, j) == query),
{
    reveal_strlit("");
    let told = lowered(described(package));
    occurrence_is_a_part(package.name, query);
    occurrence_is_a_part(told, query);
    assert(told.len() == described(package).len());
    if package.description is None && occurs_in(told, query) {
        assert(query.len() == 0);
        assert(package.name.subrange(0, 0) =~= query);
    }
}

/// A package of a repository is found by its name wherever the query, in lower case, is a part of
/// its name, whatever its description says, and wherever it is a part of its description in lower
/// case, whatever its name is.
pub proof fn whoever_holds_the_query_is_found(
    databases: DatabasesModel,
    query: Seq<char>,
    source: Source,
    d: int,
    k: int,
    i: int,
    j: int,
)
    requires
        source != Source::Aur,
        0 <= d < databases.sync.len(),
        0 <= k < databases.sync[d].packages.len(),
        ({
            let package = databases.sync[d].packages[k];
            ||| 0 <= i <= j <= package.name.len() && package.name.subrange(i, j) == lowered(query)
            ||| package.description is Some && 0 <= i <= j <= (package.description->0).len()
                && lowered(package.description->0).subrange(i, j) == lowered(query)
        }),
    ensures
        exists|h: int|
            0 <= h < search_hits(databases, query, source).len() && (#[trigger] search_hits(
                databases,
                query,
                source,
            )[h]).name == databases.sync[d].packages[k].name,
{
    let package = databases.sync[d].packages[k];
    let hits = search_hits(databases, query, source);
    lemma_match_is_a_part(package, lowered(query));
    search_is_sound_and_complete(databases, query, source);
    assert(is_match(package, lowered(query)));
    assert(entry_names(hits).contains(package.name));
    let h = choose|h: int| 0 <= h < entry_names(hits).len() && entry_names(hits)[h] == package.name;
    assert(hits[h].name == package.name);
}

/// Whatever is found is a package of a repository, told as it is there, whose name or lower-case
/// description holds the query in lower case; it is said to be installed exactly if a package of
/// its name is. No name is found twice.
pub proof fn whatever_is_found_holds_the_query(
    databases: DatabasesModel,
    query: Seq<char>,
    source: Source,
    h: int,
)
    requires
        source != Source::Aur,
        0 <= h < search_hits(databases, query, source).len(),
    ensures
        ({
            let hits = search_hits(databases, query, source);
            let hit = hits[h];
            &&& exists|d: int, k: int|
                0 <= d < databases.sync.len() && 0 <= k < databases.sync[d].packages.len() && {
                    let package = #[trigger] databases.sync[d].packages[k];
                    &&& hit.name == package.name
                    &&& hit.version == package.version
                    &&& hit.repository == databases.sync[d].name
                    &&& package.description is Some ==> hit.description == package.description->0
                    &&& package.description is None ==> hit.description.len() == 0
                }
            &&& (exists|i: int, j: int|
                0 <= i <= j <= hit.name.len() && #[trigger] hit.name.subrange(i, j) == lowered(
                    query,
                )) || (exists|i: int, j: int|
                0 <= i <= j <= hit.description.len() && #[trigger] lowered(
                    hit.description,
                ).subrange(i, j) == lowered(query))
            &&& hit.installed <==> exists|l: int|
                0 <= l < databases.local.len() && (#[trigger] databases.local[l]).name == hit.name
            &&& forall|g: int|
                0 <= g < hits.len() && g != h ==> (#[trigger] hits[g]).name != hit.name
        }),
{
    reveal_strlit("");
    let hits = search_hits(databases, query, source);
    let hit = hits[h];
    search_is_sound_and_complete(databases, query, source);
    let d = choose|d: int|
        0 <= d < databases.sync.len() && is_hit_of(
            hit,
            (#[trigger] databases.sync[d]).packages,
            databases.sync[d].name,
            lowered(query),
            databases.local,
        );
    let packages = databases.sync[d].packages;
    let k = choose|k: int|
        0 <= k < packages.len() && is_match(#[trigger] packages[k], lowered(query)) && hit
            == entry(packages[k], databases.sync[d].name, databases.local);
    assert(databases.sync[d].packages[k] == packages[k]);
    lemma_match_is_a_part(packages[k], lowered(query));
    lookup_finds_the_first(databases.local, hit.name);
    assert forall|g: int| 0 <= g < hits.len() && g != h implies (#[trigger] hits[g]).name
        != hit.name by {
        assert(entry_names(hits)[g] == hits[g].name);
        assert(entry_names(hits)[h] == hit.name);
    }
    let shown = packages[k];
    assert(hit.name == shown.name);
    if shown.description is Some && exists|i: int, j: int|
        0 <= i <= j <= (shown.description->0).len() && #[trigger] lowered(
            shown.description->0,
        ).subrange(i, j) == lowered(query) {
        let (i, j) = choose|i: int, j: int|
            0 <= i <= j <= (shown.description->0).len() && #[trigger] lowered(
                shown.description->0,
            ).subrange(i, j) == lowered(query);
        assert(hit.description == shown.description->0);
        assert(lowered(hit.description).subrange(i, j) == lowered(query));
    } else {
        let (i, j) = choose|i: int, j: int|
            0 <= i <= j <= shown.name.len() && #[trigger] shown.name.subrange(i, j) == lowered(query);
        assert(hit.name.subrange(i, j) == lowered(query));
    }
    assert((exists|i: int, j: int|
        0 <= i <= j <= hit.name.len() && #[trigger] hit.name.subrange(i, j) == lowered(query)) || (
    exists|i: int, j: int|
        0 <= i <= j <= hit.description.len() && #[trigger] lowered(hit.description).subrange(i, j)
            == lowered(query)));
    assert(hit.installed <==> exists|l: int|
        0 <= l < databases.local.len() && (#[trigger] databases.local[l]).name == hit.name);
}

/// What the repositories that come first have is found first, and stays as it was found: those that
/// come later only add to it.
pub proof fn earlier_repositories_win(
    first: Seq<SyncModel>,
    second: Seq<SyncModel>,
    local: Seq<PackageModel>,
    query: Seq<char>,
    source: Source,
)
    ensures
        search_hits(DatabasesModel { local, sync: first }, query, source).is_prefix_of(
            search_hits(DatabasesModel { local, sync: first + second }, query, source),
        ),
{
    let found = search_repositories(first, lowered(query), source, local, seq![]);
    lemma_search_in_parts(first, second, lowered(query), source, local, seq![]);
    lemma_found_stays(second, lowered(query), source, local, found);
}

proof fn lemma_search_in_parts(
    first: Seq<SyncModel>,
    second: Seq<SyncModel>,
    query: Seq<char>,
    source: Source,
    local: Seq<PackageModel>,
    found: Seq<EntryModel>,
)
    ensures
        search_repositories(first + second, query, source, local, found) == search_repositories(
            second,
            query,
            source,
            local,
            search_repositories(first, query, source, local, found),
        ),
    decreases first.len(),
{
    if first.len() == 0 {
        assert(first + second =~= second);
    } else {
        assert((first + second)[0] == first[0]);
        assert((first + second).drop_first() =~= first.drop_first() + second);
        let next = if source != Source::Aur {
            search_packages(first[0].packages, first[0].name, query, local, found)
        } else {
            found
        };
        lemma_search_in_parts(first.drop_first(), second, query, source, local, next);
    }
}

proof fn lemma_found_in_a_list_stays(
    packages: Seq<PackageModel>,
    repository: Seq<char>,
    query: Seq<char>,
    local: Seq<PackageModel>,
    found: Seq<EntryModel>,
)
    ensures
        found.is_prefix_of(search_packages(packages, repository, query, local, found)),
    decreases packages.len(),
{
    if packages.len() > 0 {
        let next = if is_match(packages[0], query) && !entry_names(found).contains(
            packages[0].name,
        ) {
            found.push(entry(packages[0], repository, local))
        } else {
            found
        };
        let hits = search_packages(packages, repository, query, local, found);
        lemma_found_in_a_list_stays(packages.drop_first(), repository, query, local, next);
        assert forall|i: int| 0 <= i < found.len() implies #[trigger] found[i] == hits[i] by {
            assert(next[i] == hits.subrange(0, next.len() as int)[i]);
        }
        assert(found =~= hits.subrange(0, found.len() as int));
    } else {
        assert(found =~= found.subrange(0, found.len() as int));
    }
}

proof fn lemma_found_stays(
    sync: Seq<SyncModel>,
    query: Seq<char>,
    source: Source,
    local: Seq<PackageModel>,
    found: Seq<EntryModel>,
)
    ensures
        found.is_prefix_of(search_repositories(sync, query, source, local, found)),
    decreases sync.len(),
{
    if sync.len() > 0 {
        let next = if source != Source::Aur {
            search_packages(sync[0].packages, sync[0].name, query, local, found)
        } else {
            found
        };
        let hits = search_repositories(sync, query, source, local, found);
        lemma_found_in_a_list_stays(sync[0].packages, sync[0].name, query, local, found);
        lemma_found_stays(sync.drop_first(), query, source, local, next);
        assert(found =~= found.subrange(0, found.len() as int));
        assert(found.is_prefix_of(next));
        assert forall|i: int| 0 <= i < found.len() implies #[trigger] found[i] == hits[i] by {
            assert(found[i] == next.subrange(0, found.len() as int)[i]);
            assert(next[i] == hits.subrange(0, next.len() as int)[i]);
        }
        assert(found =~= hits.subrange(0, found.len() as int));
    } else {
        assert(found =~= found.subrange(0, found.len() as int));
    }
}

/// A package of the AUR is found by its name wherever the query, in lower case, is a part of its
/// name or of its description in lower case.
pub proof fn whoever_holds_the_query_is_found_in_the_aur(
    results: Seq<AurPackageInfo>,
    query: Seq<char>,
    local: Seq<PackageModel>,
    k: int,
    i: int,
    j: int,
)
    requires
        0 <= k < results.len(),
        ({
            let info = results[k]@;
            ||| 0 <= i <= j <= info.name.len() && info.name.subrange(i, j) == lowered(query)
            ||| info.description is Some && 0 <= i <= j <= (info.description->0).len() && lowered(
                info.description->0,
            ).subrange(i, j) == lowered(query)
        }),
    ensures
        exists|h: int|
            0 <= h < aur_hits(results, query, local).len() && (#[trigger] aur_hits(
                results,
                query,
                local,
            )[h]).name == results[k]@.name,
{
    let packages = aur_packages(results);
    let hits = aur_hits(results, query, local);
    let name = packages[k].name;
    lemma_match_is_a_part(packages[k], lowered(query));
    aur_search_is_sound_and_complete(results, query, local);
    assert(is_match(packages[k], lowered(query)));
    assert(entry_names(hits).contains(name));
    let h = choose|h: int| 0 <= h < entry_names(hits).len() && entry_names(hits)[h] == name;
    assert(hits[h].name == name);
}

/// Whatever is found in the AUR is a package that the AUR named, told as it is there, whose name or
/// lower-case description holds the query in lower case. No name is found twice.
pub proof fn whatever_is_found_in_the_aur_holds_the_query(
    results: Seq<AurPackageInfo>,
    query: Seq<char>,
    local: Seq<PackageModel>,
    h: int,
)
    requires
        0 <= h < aur_hits(results, query, local).len(),
    ensures
        ({
            let hits = aur_hits(results, query, local);
            let hit = hits[h];
            &&& hit.repository == "aur"@
            &&& exists|k: int|
                0 <= k < results.len() && {
                    let info = (#[trigger] results[k])@;
                    &&& hit.name == info.name
                    &&& hit.version == info.version
                    &&& info.description is Some ==> hit.description == info.description->0
                    &&& info.description is None ==> hit.description.len() == 0
                }
            &&& (exists|i: int, j: int|
                0 <= i <= j <= hit.name.len() && #[trigger] hit.name.subrange(i, j) == lowered(
                    query,
                )) || (exists|i: int, j: int|
                0 <= i <= j <= hit.description.len() && #[trigger] lowered(
                    hit.description,
                ).subrange(i, j) == lowered(query))
            &&& hit.installed <==> exists|l: int|
                0 <= l < local.len() && (#[trigger] local[l]).name == hit.name
            &&& forall|g: int|
                0 <= g < hits.len() && g != h ==> (#[trigger] hits[g]).name != hit.name
        }),
{
    reveal_strlit("");
    let hits = aur_hits(results, query, local);
    let hit = hits[h];
    let packages = aur_packages(results);
    aur_search_is_sound_and_complete(results, query, local);
    assert(is_hit_of(hit, packages, "aur"@, lowered(query), local));
    let k = choose|k: int|
        0 <= k < packages.len() && is_match(#[trigger] packages[k], lowered(query)) && hit
            == entry(packages[k], "aur"@, local);
    assert(packages[k] == aur_package(results[k]@));
    lemma_match_is_a_part(packages[k], lowered(query));
    lookup_finds_the_first(local, hit.name);
    assert forall|g: int| 0 <= g < hits.len() && g != h implies (#[trigger] hits[g]).name
        != hit.name by {
        assert(entry_names(hits)[g] == hits[g].name);
        assert(entry_names(hits)[h] == hit.name);
    }
    let shown = packages[k];
    assert(hit.name == shown.name);
    if shown.description is Some && exists|i: int, j: int|
        0 <= i <= j <= (shown.description->0).len() && #[trigger] lowered(
            shown.description->0,
        ).subrange(i, j) == lowered(query) {
        let (i, j) = choose|i: int, j: int|
            0 <= i <= j <= (shown.description->0).len() && #[trigger] lowered(
                shown.description->0,
            ).subrange(i, j) == lowered(query);
        assert(hit.description == shown.description->0);
        assert(lowered(hit.description).subrange(i, j) == lowered(query));
    } else {
        let (i, j) = choose|i: int, j: int|
            0 <= i <= j <= shown.name.len() && #[trigger] shown.name.subrange(i, j) == lowered(query);
        assert(hit.name.subrange(i, j) == lowered(query));
    }
    assert((exists|i: int, j: int|
        0 <= i <= j <= hit.name.len() && #[trigger] hit.name.subrange(i, j) == lowered(query)) || (
    exists|i: int, j: int|
        0 <= i <= j <= hit.description.len() && #[trigger] lowered(hit.description).subrange(i, j)
            == lowered(query)));
    assert(hit.installed <==> exists|l: int|
        0 <= l < local.len() && (#[trigger] local[l]).name == hit.name);
}

/// What a search shows is what it found, all of it and nothing else, by ascending names.
pub proof fn sorted_hits_are_the_hits(entries: Seq<EntryModel>, hits: Seq<EntryModel>)
    requires
        are_sorted_hits(entries, hits),
        hits.len() <= usize::MAX,
    ensures
        entries.len() == hits.len(),
        forall|hit: EntryModel| #[trigger] entries.contains(hit) <==> hits.contains(hit),
        forall|a: int, b: int|
            0 <= a < b < entries.len() ==> !lex_less(
                (#[trigger] entries[b]).name,
                (#[trigger] entries[a]).name,
            ),
{
    let names = entry_names(hits);
    let order = choose|order: Seq<usize>|
        is_sorted_order(names, false, order) && entries == #[trigger] arranged(hits, order);
    assert forall|hit: EntryModel| #[trigger] entries.contains(hit) implies hits.contains(hit) by {
        let a = choose|a: int| 0 <= a < entries.len() && entries[a] == hit;
        assert(hits[order[a] as int] == hit);
    }
    assert forall|hit: EntryModel| hits.contains(hit) implies #[trigger] entries.contains(hit) by {
        let i = choose|i: int| 0 <= i < hits.len() && hits[i] == hit;
        sorted_order_lists_every_place(names, false, order, i as usize);
        let a = choose|a: int| 0 <= a < order.len() && order[a] == i as usize;
        assert(entries[a] == hit);
    }
    assert forall|a: int, b: int| 0 <= a < b < entries.len() implies !lex_less(
        (#[trigger] entries[b]).name,
        (#[trigger] entries[a]).name,
    ) by {
        sorted_order_goes_one_way(names, false, order, a, b);
        let x = entries[a].name;
        let y = entries[b].name;
        assert(names[order[a] as int] == x && names[order[b] as int] == y);
        if lex_less(y, x) {
            if x == y {
                lex_less_is_irreflexive(x);
            } else {
                lex_less_is_transitive(x, y, x);
                lex_less_is_irreflexive(x);
            }
        }
    }
}

/// Entries are shown one after another. Each is shown by its name, its version, its repository and
/// whether it is installed, and by its description on a line of its own if it has one.
pub proof fn entries_are_shown_in_full(
    first: Seq<EntryModel>,
    second: Seq<EntryModel>,
    entry: EntryModel,
)
    ensures
        all_entry_lines(first + second) == all_entry_lines(first) + all_entry_lines(second),
        ({
            let lines = all_entry_lines(seq![entry]);
            let line = "  "@ + painted(Colour::Cyan, "*"@) + " "@ + entry.name + " "@
                + entry.version + " ["@ + entry.repository + "]"@;
            &&& entry.installed ==> lines[0] == line + " [installed]"@
            &&& !entry.installed ==> lines[0] == line
            &&& entry.description.len() == 0 ==> lines.len() == 1
            &&& entry.description.len() > 0 ==> lines.len() == 2 && lines[1] == "    "@
                + entry.description
        }),
    decreases second.len(),
{
    reveal_strlit("");
    if second.len() == 0 {
        assert(first + second =~= first);
        assert(all_entry_lines(first) + all_entry_lines(second) =~= all_entry_lines(first));
    } else {
        let rest = second.drop_last();
        assert((first + second).drop_last() =~= first + rest);
        assert((first + second).last() == second.last());
        entries_are_shown_in_full(first, rest, entry);
        assert(all_entry_lines(first + second) =~= all_entry_lines(first) + all_entry_lines(
            second,
        ));
    }
    assert(seq![entry].drop_last() =~= Seq::<EntryModel>::empty());
    assert(all_entry_lines(Seq::<EntryModel>::empty()) =~= Seq::<Seq<char>>::empty());
    assert(all_entry_lines(seq![entry]) =~= entry_lines(entry));
    let line = "  "@ + painted(Colour::Cyan, "*"@) + " "@ + entry.name + " "@ + entry.version
        + " ["@ + entry.repository + "]"@;
    assert(line + ""@ =~= line);
}

/// What is shown of a package that a repository has: its name in lower case, with the version and
/// the place that the first such repository gives, its description, its dependencies, and whether
/// it is installed, in the version that is.
pub proof fn repository_package_is_shown_in_full(
    databases: DatabasesModel,
    package: Seq<char>,
    source: Source,
    repository: Seq<char>,
    found: PackageModel,
)
    requires
        sync_lookup(databases.sync, lowered(package), source) == Some((repository, found)),
    ensures
        info_report(databases, package, source) is Some,
        ({
            let lines = info_report(databases, package, source)->0;
            let n = lines.len();
            &&& n == if found.description is Some {
                4int
            } else {
                3int
            }
            &&& lines[0] == "  "@ + painted(Colour::Cyan, lowered(package)) + " "@ + found.version
                + " ["@ + repository + "]"@
            &&& found.description is Some ==> lines[1] == "    "@ + found.description->0
            &&& found.depends.len() == 0 ==> lines[n - 2] == "    dependencies: (none)"@
            &&& found.depends.len() > 0 ==> lines[n - 2] == "    dependencies: "@ + joined(
                found.depends,
                ", "@,
            )
            &&& lookup(databases.local, lowered(package)) is None ==> lines[n - 1]
                == "    status: not installed"@
            &&& lookup(databases.local, lowered(package)) is Some ==> lines[n - 1]
                == "    status: installed ("@ + (lookup(databases.local, lowered(package))->0).version
                + ")"@
        }),
{
    sync_lookup_finds_the_first(databases.sync, lowered(package), source);
}

/// What is shown of a package that is installed and that no repository has, and that nothing is
/// shown of one that is neither.
pub proof fn local_package_is_shown_as_installed(
    databases: DatabasesModel,
    package: Seq<char>,
    source: Source,
)
    requires
        sync_lookup(databases.sync, lowered(package), source) is None,
    ensures
        (info_report(databases, package, source) is Some) == (lookup(
            databases.local,
            lowered(package),
        ) is Some),
        lookup(databases.local, lowered(package)) matches Some(found) ==> {
            let lines = info_report(databases, package, source)->0;
            let n = lines.len();
            &&& n == if found.description is Some {
                3int
            } else {
                2int
            }
            &&& lines[0] == "  "@ + painted(Colour::Cyan, lowered(package)) + " "@ + found.version
                + " ["@ + "local"@ + "]"@
            &&& found.description is Some ==> lines[1] == "    "@ + found.description->0
            &&& lines[n - 1] == "    status: installed"@
        },
{
    lookup_finds_the_first(databases.local, lowered(package));
}

/// Every installed package is listed by its name and its version, and all of them are counted.
pub proof fn every_package_is_listed(packages: Seq<PackageModel>, i: int)
    requires
        0 <= i < packages.len(),
    ensures
        package_lines(packages).len() == packages.len(),
        package_lines(packages)[i] == "  "@ + packages[i].name + " "@ + painted(
            Colour::Yellow,
            packages[i].version,
        ),
        package_names(packages).len() == packages.len(),
        package_names(packages)[i] == packages[i].name,
        count_line(packages.len()) == painted(Colour::Green, "==>"@) + " "@ + (decimal(packages.len())
            + " installed package(s)"@),
{
}

/// An examination counts the repositories, fails exactly where there are none, and warns exactly
/// where nothing is installed.
pub proof fn diagnosis_says_what_is_wrong(count: nat, any_installed: bool)
    ensures
        ({
            let lines = diagnosis_lines(count, any_installed);
            let healthy = painted(Colour::Green, "ok"@) + " local package database is readable"@;
            let empty = painted(Colour::Yellow, "warn"@)
                + " local package database appears empty"@;
            &&& lines.len() == 5
            &&& lines[0] == painted(Colour::Green, "ok"@) + " libalpm initialized"@
            &&& lines[1] == painted(Colour::Cyan, "==>"@) + " "@
                + "local db path: /var/lib/pacman/local"@
            &&& lines[2] == painted(Colour::Cyan, "==>"@) + " "@ + ("sync db count: "@ + decimal(
                count,
            ))
            &&& count == 0 ==> lines[3] == painted(Colour::Red, "fail"@)
                + " no sync databases registered"@
            &&& lines[if count == 0 {
                4int
            } else {
                3int
            }] == if any_installed {
                healthy
            } else {
                empty
            }
            &&& count > 0 ==> lines[4] == painted(Colour::Green, "==>"@) + " "@
                + "Your system is ready for ArchBrew"@
        }),
{
}

/// What the AUR answers decides what a search shows: an answer is shown as what it holds, and one
/// that could not be had or read as the reason.
pub proof fn answer_of_the_aur_is_shown(
    step: SearchStep,
    local: Seq<PackageModel>,
    query: Seq<char>,
    answer: Answer,
)
    requires
        is_aur_result(step, local, query, answer),
    ensures
        step is Found <==> answer is Results,
        step is Failed <==> !(answer is Results),
        answer is Results ==> are_sorted_hits(
            entry_models(step->Found_0@),
            aur_hits(answer->Results_0@, query, local),
        ),
        answer is Unreachable ==> step->Failed_0@ == answer->Unreachable_0@,
        answer is Unreadable ==> step->Failed_0@ == "failed to parse AUR response for '"@ + query
            + "': "@ + answer->Unreadable_0@,
{
}

/// The texts of search entries are those of their fields, each in its place.
pub proof fn entry_texts_are_their_fields(entries: Seq<SearchEntry>, i: int)
    requires
        0 <= i < entries.len(),
    ensures
        entry_models(entries).len() == entries.len(),
        entry_models(entries)[i].name == entries[i].name@,
        entry_models(entries)[i].version == entries[i].version@,
        entry_models(entries)[i].repository == entries[i].repository@,
        entry_models(entries)[i].installed == entries[i].installed,
        entry_models(entries)[i].description == entries[i].description@,
{
}

} // verus!

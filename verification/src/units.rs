//! The packages to build and the files that building them leaves.

use crate::aur::{AurInfo, AurPackageInfo};
use crate::database::DatabasesModel;
use crate::order::{arranged, is_sorted_order, sorted_order};
use crate::paths::{join_path, joined_path};
use crate::resolve::{info_models, is_buildable, Progress};
use crate::style::{note, notice, Colour};
use crate::text::{copy_strings, ends_with, texts};
use vstd::hash_map::StringHashMap;
use vstd::prelude::*;

verus! {

/// A package whose sources are at hand.
#[derive(Debug)]
pub struct AurBuildUnit {
    pub info: AurPackageInfo,
    /// The directory that holds its sources.
    pub build_dir: String,
}

/// The texts that a package to build holds.
#[verifier::ext_equal]
pub struct UnitModel {
    pub info: AurInfo,
    pub build_dir: Seq<char>,
}

impl View for AurBuildUnit {
    type V = UnitModel;

    open spec fn view(&self) -> UnitModel {
        UnitModel { info: self.info@, build_dir: self.build_dir@ }
    }
}

/// The texts that a list of packages to build holds.
pub open spec fn unit_models(units: Seq<AurBuildUnit>) -> Seq<UnitModel> {
    Seq::new(units.len(), |i: int| units[i]@)
}

/// What became of getting the sources of a package.
#[derive(Debug)]
pub enum Snapshot {
    /// They are in this directory.
    Unpacked(String),
    /// They could not be had, with this message.
    Failed(String),
}

/// The texts that such a result holds.
pub enum SnapshotModel {
    Unpacked(Seq<char>),
    Failed(Seq<char>),
}

impl View for Snapshot {
    type V = SnapshotModel;

    open spec fn view(&self) -> SnapshotModel {
        match self {
            Snapshot::Unpacked(directory) => SnapshotModel::Unpacked(directory@),
            Snapshot::Failed(message) => SnapshotModel::Failed(message@),
        }
    }
}

/// The texts that a list of such results holds.
pub open spec fn snapshot_models(snapshots: Seq<Snapshot>) -> Seq<SnapshotModel> {
    Seq::new(snapshots.len(), |i: int| snapshots[i]@)
}

/// How far the sources that are at hand lead.
#[verifier::ext_equal]
pub enum Prepared {
    /// To the end: these packages can be built.
    Units(Seq<UnitModel>),
    /// To a package whose sources have to be downloaded.
    Download(AurInfo),
    /// To a failure, with this message.
    Failed(Seq<char>),
}

/// Goes through the packages in order, with `units` ready before them.
pub open spec fn prepare(
    order: Seq<Seq<char>>,
    infos: Map<Seq<char>, AurInfo>,
    snapshots: Seq<SnapshotModel>,
    units: Seq<UnitModel>,
) -> Prepared
    decreases order.len(),
{
    if order.len() == 0 {
        Prepared::Units(units)
    } else if !infos.contains_key(order[0]) {
        Prepared::Failed("missing AUR metadata for '"@ + order[0] + "'"@)
    } else if snapshots.len() == 0 {
        Prepared::Download(infos[order[0]])
    } else {
        match snapshots[0] {
            SnapshotModel::Unpacked(build_dir) => prepare(
                order.drop_first(),
                infos,
                snapshots.drop_first(),
                units.push(UnitModel { info: infos[order[0]], build_dir }),
            ),
            SnapshotModel::Failed(message) => Prepared::Failed(message),
        }
    }
}

/// Why the packages cannot be built yet.
#[derive(Debug)]
pub enum UnitStop {
    /// The sources of this package have to be downloaded.
    Download(AurPackageInfo),
    /// They cannot be built, with this message.
    Failed(String),
}

/// Puts the packages of `order` together with their metadata and the directories of their sources,
/// as far as sources have been downloaded.
pub fn prepare_aur_build_units(
    order: &Vec<String>,
    infos: &StringHashMap<AurPackageInfo>,
    snapshots: &Vec<Snapshot>,
) -> (r: Result<Vec<AurBuildUnit>, UnitStop>)
    ensures
        match prepare(
            texts(order@),
            info_models(infos@),
            snapshot_models(snapshots@),
            seq![],
        ) {
            Prepared::Units(units) => r matches Ok(ready) && unit_models(ready@) == units,
            Prepared::Download(info) => r matches Err(UnitStop::Download(wanted)) && wanted@
                == info,
            Prepared::Failed(message) => r matches Err(UnitStop::Failed(shown)) && shown@
                == message,
        },
{
    let ghost names = texts(order@);
    let ghost known = info_models(infos@);
    let ghost results = snapshot_models(snapshots@);
    let ghost whole = prepare(names, known, results, seq![]);
    let mut units: Vec<AurBuildUnit> = Vec::new();
    let mut i: usize = 0;
    assert(names.skip(0) =~= names);
    assert(results.skip(0) =~= results);
    assert(unit_models(units@) =~= Seq::<UnitModel>::empty());
    while i < order.len()
        invariant
            i <= order@.len(),
            i <= snapshots@.len(),
            names == texts(order@),
            known == info_models(infos@),
            results == snapshot_models(snapshots@),
            whole == prepare(names, known, results, seq![]),
            whole == prepare(
                names.skip(i as int),
                known,
                results.skip(i as int),
                unit_models(units@),
            ),
        decreases order@.len() - i,
    {
        assert(names.skip(i as int)[0] == order@[i as int]@);
        assert(names.skip(i as int).drop_first() =~= names.skip(i + 1));
        let info = match infos.get(order[i].as_str()) {
            Some(info) => info.clone(),
            None => {
                return Err(
                    UnitStop::Failed(
                        String::from_str("missing AUR metadata for '").concat(
                            order[i].as_str(),
                        ).concat("'"),
                    ),
                );
            },
        };
        if i == snapshots.len() {
            return Err(UnitStop::Download(info));
        }
        assert(results.skip(i as int)[0] == snapshots@[i as int]@);
        assert(results.skip(i as int).drop_first() =~= results.skip(i + 1));
        match &snapshots[i] {
            Snapshot::Unpacked(directory) => {
                let ghost held = unit_models(units@);
                units.push(AurBuildUnit { info, build_dir: directory.clone() });
                assert(unit_models(units@) =~= held.push(
                    UnitModel { info: info@, build_dir: directory@ },
                ));
            },
            Snapshot::Failed(message) => {
                return Err(UnitStop::Failed(message.clone()));
            },
        }
        i += 1;
    }
    assert(names.skip(i as int) =~= Seq::<Seq<char>>::empty());
    Ok(units)
}

proof fn lemma_prepare_all(
    order: Seq<Seq<char>>,
    infos: Map<Seq<char>, AurInfo>,
    snapshots: Seq<SnapshotModel>,
    units: Seq<UnitModel>,
)
    requires
        order.len() == snapshots.len(),
        forall|i: int| 0 <= i < order.len() ==> infos.contains_key(#[trigger] order[i]),
        forall|i: int| 0 <= i < order.len() ==> #[trigger] snapshots[i] is Unpacked,
    ensures
        prepare(order, infos, snapshots, units) == Prepared::Units(
            units + Seq::new(
                order.len(),
                |i: int| UnitModel { info: infos[order[i]], build_dir: snapshots[i]->Unpacked_0 },
            ),
        ),
    decreases order.len(),
{
    let all = Seq::new(
        order.len(),
        |i: int| UnitModel { info: infos[order[i]], build_dir: snapshots[i]->Unpacked_0 },
    );
    if order.len() == 0 {
        assert(units + all =~= units);
    } else {
        let rest = order.drop_first();
        let results = snapshots.drop_first();
        let first = UnitModel { info: infos[order[0]], build_dir: snapshots[0]->Unpacked_0 };
        assert forall|i: int| 0 <= i < rest.len() implies infos.contains_key(#[trigger] rest[i]) by {
            assert(rest[i] == order[i + 1]);
        }
        assert forall|i: int| 0 <= i < rest.len() implies #[trigger] results[i] is Unpacked by {
            assert(results[i] == snapshots[i + 1]);
        }
        lemma_prepare_all(rest, infos, results, units.push(first));
        let others = Seq::new(
            rest.len(),
            |i: int| UnitModel { info: infos[rest[i]], build_dir: results[i]->Unpacked_0 },
        );
        assert(units.push(first) + others =~= units + all);
    }
}

/// A buildable order lacks no metadata: when the sources of every package are there, every package
/// is ready, in its place and with its own metadata.
pub proof fn buildable_order_is_prepared(
    databases: DatabasesModel,
    progress: Progress,
    snapshots: Seq<SnapshotModel>,
)
    requires
        is_buildable(databases, progress),
        snapshots.len() == progress.order.len(),
        forall|i: int| 0 <= i < snapshots.len() ==> #[trigger] snapshots[i] is Unpacked,
    ensures
        prepare(progress.order, progress.infos, snapshots, seq![]) == Prepared::Units(
            Seq::new(
                progress.order.len(),
                |i: int|
                    UnitModel {
                        info: progress.infos[progress.order[i]],
                        build_dir: snapshots[i]->Unpacked_0,
                    },
            ),
        ),
{
    assert forall|i: int| 0 <= i < progress.order.len() implies progress.infos.contains_key(
        #[trigger] progress.order[i],
    ) by {
        assert(progress.order.to_set().contains(progress.order[i]));
    }
    lemma_prepare_all(progress.order, progress.infos, snapshots, seq![]);
    let all = Seq::new(
        progress.order.len(),
        |i: int|
            UnitModel {
                info: progress.infos[progress.order[i]],
                build_dir: snapshots[i]->Unpacked_0,
            },
    );
    assert(Seq::<UnitModel>::empty() + all =~= all);
}

/// Whether a file of that name is a built package.
pub open spec fn is_package_file(name: Seq<char>) -> bool {
    ".pkg.tar.zst"@.is_suffix_of(name) || ".pkg.tar.xz"@.is_suffix_of(name)
}

/// The paths of the built packages among the files of a directory.
pub open spec fn package_paths(build_dir: Seq<char>, names: Seq<Seq<char>>) -> Seq<Seq<char>>
    decreases names.len(),
{
    if names.len() == 0 {
        seq![]
    } else {
        let before = package_paths(build_dir, names.drop_last());
        if is_package_file(names.last()) {
            before.push(joined_path(build_dir, names.last()))
        } else {
            before
        }
    }
}

/// The message for a directory without built packages.
pub open spec fn nothing_built_message(build_dir: Seq<char>) -> Seq<char> {
    "no built package files found in '"@ + build_dir + "'"@
}

/// Picks the built packages out of the files of a directory, in descending order of their paths.
/// `entries` are the names of these files, or the reason for which they are not known.
pub fn find_built_package_files(
    build_dir: &str,
    entries: &Result<Vec<String>, String>,
) -> (r: Result<Vec<String>, String>)
    ensures
        match *entries {
            Err(reason) => r matches Err(message) && message@ == "failed to read build dir '"@
                + build_dir@ + "': "@ + reason@,
            Ok(names) => {
                let paths = package_paths(build_dir@, texts(names@));
                match r {
                    Ok(files) => paths.len() > 0 && exists|order: Seq<usize>|
                        is_sorted_order(paths, true, order) && texts(files@)
                            == #[trigger] arranged(paths, order),
                    Err(message) => paths.len() == 0 && message@ == nothing_built_message(
                        build_dir@,
                    ),
                }
            },
        },
{
    let names = match entries {
        Err(reason) => {
            return Err(
                String::from_str("failed to read build dir '").concat(build_dir).concat(
                    "': ",
                ).concat(reason.as_str()),
            );
        },
        Ok(names) => names,
    };
    let ghost all = texts(names@);
    let mut found: Vec<String> = Vec::new();
    let mut i: usize = 0;
    assert(all.take(0) =~= Seq::<Seq<char>>::empty());
    assert(texts(found@) =~= Seq::<Seq<char>>::empty());
    while i < names.len()
        invariant
            i <= names@.len(),
            all == texts(names@),
            texts(found@) == package_paths(build_dir@, all.take(i as int)),
        decreases names@.len() - i,
    {
        let ghost held = texts(found@);
        let name = names[i].as_str();
        i += 1;
        assert(all.take(i as int).drop_last() =~= all.take(i - 1));
        assert(all.take(i as int).last() == name@);
        if ends_with(name, ".pkg.tar.zst") || ends_with(name, ".pkg.tar.xz") {
            let path = join_path(build_dir, name);
            found.push(path);
            assert(texts(found@) =~= held.push(path@));
        }
    }
    assert(all.take(i as int) =~= all);
    if found.is_empty() {
        return Err(
            String::from_str("no built package files found in '").concat(build_dir).concat("'"),
        );
    }
    let order = sorted_order(&found, true);
    let ghost paths = texts(found@);
    let mut files: Vec<String> = Vec::new();
    let mut k: usize = 0;
    while k < order.len()
        invariant
            k <= order@.len(),
            paths == texts(found@),
            is_sorted_order(paths, true, order@),
            texts(files@) == arranged(paths, order@).take(k as int),
        decreases order@.len() - k,
    {
        let ghost held = texts(files@);
        files.push(found[order[k]].clone());
        k += 1;
        assert(texts(files@) =~= held.push(paths[order@[k - 1] as int]));
        assert(texts(files@) =~= arranged(paths, order@).take(k as int));
    }
    assert(arranged(paths, order@).take(k as int) =~= arranged(paths, order@));
    Ok(files)
}

/// What comes next in the installation of AUR packages whose sources are at hand.
#[derive(Debug)]
pub enum AurStep {
    /// The user has to be offered to look at how the packages are built.
    Review,
    /// The user has to agree.
    Confirm,
    /// Nothing: the user did not agree.
    Cancelled,
    /// The package at this place has to be built.
    Build(usize),
    /// These files have to be installed.
    Install(Vec<String>),
    /// Nothing: the look failed, or a package could not be built, with this message.
    Failed(String),
}

/// What comes next, with its texts.
#[verifier::ext_equal]
pub enum AurStepModel {
    Review,
    Confirm,
    Cancelled,
    Build(nat),
    Install(Seq<Seq<char>>),
    Failed(Seq<char>),
}

impl View for AurStep {
    type V = AurStepModel;

    open spec fn view(&self) -> AurStepModel {
        match self {
            AurStep::Review => AurStepModel::Review,
            AurStep::Confirm => AurStepModel::Confirm,
            AurStep::Cancelled => AurStepModel::Cancelled,
            AurStep::Build(place) => AurStepModel::Build(*place as nat),
            AurStep::Install(files) => AurStepModel::Install(texts(files@)),
            AurStep::Failed(message) => AurStepModel::Failed(message@),
        }
    }
}

/// The message of the first package that could not be built.
pub open spec fn first_failure(built: Seq<Result<Vec<String>, String>>) -> Option<Seq<char>>
    decreases built.len(),
{
    if built.len() == 0 {
        None
    } else {
        match built[0] {
            Err(message) => Some(message@),
            Ok(_) => first_failure(built.drop_first()),
        }
    }
}

/// The files of the packages that were built, one package after another.
pub open spec fn all_files(built: Seq<Result<Vec<String>, String>>) -> Seq<Seq<char>>
    decreases built.len(),
{
    if built.len() == 0 {
        seq![]
    } else {
        (match built[0] {
            Ok(files) => texts(files@),
            Err(_) => seq![],
        }) + all_files(built.drop_first())
    }
}

/// What comes next, by what came of the look, by whether the user agreed and by what came of
/// building the first packages: their files, or a failure.
pub open spec fn following_aur_step(
    units: Seq<UnitModel>,
    review: Option<Result<(), String>>,
    consent: Option<bool>,
    built: Seq<Result<Vec<String>, String>>,
) -> AurStepModel {
    match (review, consent) {
        (None, _) => AurStepModel::Review,
        (Some(Err(message)), _) => AurStepModel::Failed(message@),
        (Some(Ok(())), None) => AurStepModel::Confirm,
        (Some(Ok(())), Some(false)) => AurStepModel::Cancelled,
        (Some(Ok(())), Some(true)) => match first_failure(built) {
            Some(message) => AurStepModel::Failed(message),
            None => if built.len() < units.len() {
                AurStepModel::Build(built.len())
            } else {
                AurStepModel::Install(all_files(built))
            },
        },
    }
}

/// Decides what comes next in the installation of AUR packages: the user may look at how they are
/// built, and has to agree; then they are built in order, and all that was built is installed at
/// once. The first failure ends it.
pub fn install_aur_packages(
    units: &Vec<AurBuildUnit>,
    review: &Option<Result<(), String>>,
    consent: Option<bool>,
    built: &Vec<Result<Vec<String>, String>>,
) -> (r: AurStep)
    ensures
        r@ == following_aur_step(unit_models(units@), *review, consent, built@),
{
    match review {
        None => {
            return AurStep::Review;
        },
        Some(Err(message)) => {
            return AurStep::Failed(message.clone());
        },
        Some(Ok(())) => {},
    }
    match consent {
        None => {
            return AurStep::Confirm;
        },
        Some(agreed) => if !agreed {
            return AurStep::Cancelled;
        },
    }
    let mut files: Vec<String> = Vec::new();
    let mut i: usize = 0;
    assert(built@.skip(0) =~= built@);
    assert(texts(files@) + all_files(built@) =~= all_files(built@));
    while i < built.len()
        invariant
            i <= built@.len(),
            review matches Some(Ok(_)),
            consent == Some(true),
            first_failure(built@) == first_failure(built@.skip(i as int)),
            texts(files@) + all_files(built@.skip(i as int)) == all_files(built@),
        decreases built@.len() - i,
    {
        let ghost rest = built@.skip(i as int);
        let ghost held = texts(files@);
        assert(rest[0] == built@[i as int]);
        assert(rest.drop_first() =~= built@.skip(i + 1));
        match &built[i] {
            Err(message) => {
                return AurStep::Failed(message.clone());
            },
            Ok(outputs) => {
                let mut more = copy_strings(outputs);
                let ghost added = texts(more@);
                files.append(&mut more);
                assert(texts(files@) =~= held + added);
                assert(texts(files@) + all_files(rest.drop_first()) =~= held + (added + all_files(
                    rest.drop_first(),
                )));
            },
        }
        i += 1;
    }
    assert(built@.skip(i as int) =~= Seq::<Result<Vec<String>, String>>::empty());
    assert(texts(files@) =~= all_files(built@));
    if built.len() < units.len() {
        AurStep::Build(built.len())
    } else {
        AurStep::Install(files)
    }
}

proof fn lemma_no_failure(built: Seq<Result<Vec<String>, String>>)
    requires
        first_failure(built) is None,
    ensures
        forall|i: int| 0 <= i < built.len() ==> (#[trigger] built[i]) is Ok,
    decreases built.len(),
{
    if built.len() > 0 {
        lemma_no_failure(built.drop_first());
        assert forall|i: int| 0 <= i < built.len() implies (#[trigger] built[i]) is Ok by {
            if i > 0 {
                assert(built.drop_first()[i - 1] == built[i]);
            }
        }
    }
}

proof fn lemma_all_files_hold(built: Seq<Result<Vec<String>, String>>, i: int, j: int)
    requires
        0 <= i < built.len(),
        built[i] is Ok,
        0 <= j < built[i]->Ok_0@.len(),
    ensures
        all_files(built).contains(built[i]->Ok_0@[j]@),
    decreases built.len(),
{
    let rest = all_files(built.drop_first());
    if i == 0 {
        assert(all_files(built)[j] == built[0]->Ok_0@[j]@);
    } else {
        assert(built.drop_first()[i - 1] == built[i]);
        lemma_all_files_hold(built.drop_first(), i - 1, j);
        let file = built[i]->Ok_0@[j]@;
        let k = choose|k: int| 0 <= k < rest.len() && rest[k] == file;
        let before = all_files(built).len() - rest.len();
        assert(all_files(built)[before + k] == file);
    }
}

/// Nothing is built or installed unless the user could look first, and agreed.
pub proof fn nothing_is_built_without_consent(
    units: Seq<UnitModel>,
    review: Option<Result<(), String>>,
    consent: Option<bool>,
    built: Seq<Result<Vec<String>, String>>,
)
    requires
        ({
            let step = following_aur_step(units, review, consent, built);
            step is Build || step is Install
        }),
    ensures
        review matches Some(Ok(_)),
        consent == Some(true),
{
}

/// The user is asked only after the look.
pub proof fn review_comes_before_the_question(
    units: Seq<UnitModel>,
    review: Option<Result<(), String>>,
    consent: Option<bool>,
    built: Seq<Result<Vec<String>, String>>,
)
    requires
        following_aur_step(units, review, consent, built) is Confirm,
    ensures
        review matches Some(Ok(_)),
{
}

/// Packages are built in order: the next one is the first that has no result yet, and all before it
/// were built.
pub proof fn packages_are_built_in_order(
    units: Seq<UnitModel>,
    review: Option<Result<(), String>>,
    consent: Option<bool>,
    built: Seq<Result<Vec<String>, String>>,
)
    ensures
        following_aur_step(units, review, consent, built) matches AurStepModel::Build(place) ==> place
            == built.len() < units.len() && forall|i: int|
            0 <= i < built.len() ==> (#[trigger] built[i]) is Ok,
{
    if following_aur_step(units, review, consent, built) is Build {
        lemma_no_failure(built);
    }
}

/// Files are installed only when every package was built, and then all of them.
pub proof fn installation_waits_for_every_package(
    units: Seq<UnitModel>,
    review: Option<Result<(), String>>,
    consent: Option<bool>,
    built: Seq<Result<Vec<String>, String>>,
)
    ensures
        following_aur_step(units, review, consent, built) matches AurStepModel::Install(files) ==> {
            &&& units.len() <= built.len()
            &&& forall|i: int| 0 <= i < built.len() ==> (#[trigger] built[i]) is Ok
            &&& forall|i: int, j: int|
                0 <= i < built.len() && 0 <= j < built[i]->Ok_0@.len() ==> files.contains(
                    (#[trigger] built[i]->Ok_0@[j])@,
                )
        },
{
    if let AurStepModel::Install(files) = following_aur_step(units, review, consent, built) {
        lemma_no_failure(built);
        assert forall|i: int, j: int|
            0 <= i < built.len() && 0 <= j < built[i]->Ok_0@.len() implies files.contains(
            (#[trigger] built[i]->Ok_0@[j])@,
        ) by {
            lemma_all_files_hold(built, i, j);
        }
    }
}

/// The line that tells whether the packages are built now, by whether the user agreed.
pub fn building_line(consent: bool) -> (r: String)
    ensures
        r@ == if consent {
            notice(Colour::Green, "Building AUR packages"@)
        } else {
            notice(Colour::Yellow, "Installation cancelled"@)
        },
{
    if consent {
        note(Colour::Green, "Building AUR packages")
    } else {
        note(Colour::Yellow, "Installation cancelled")
    }
}

/// The line that announces that a package is built.
pub fn unit_line(unit: &AurBuildUnit) -> (r: String)
    ensures
        r@ == notice(
            Colour::Cyan,
            "Building "@ + unit@.info.name + " "@ + unit@.info.version,
        ),
{
    let message = String::from_str("Building ").concat(unit.info.name.as_str()).concat(
        " ",
    ).concat(unit.info.version.as_str());
    note(Colour::Cyan, message.as_str())
}

/// Every package is prepared with its own metadata and its own sources, in their order. The first
/// whose metadata are missing or whose sources could not be had is told instead, and so is the first
/// whose sources are not there yet.
pub proof fn units_go_with_their_sources(
    order: Seq<Seq<char>>,
    infos: Map<Seq<char>, AurInfo>,
    snapshots: Seq<SnapshotModel>,
    units: Seq<UnitModel>,
)
    ensures
        match prepare(order, infos, snapshots, units) {
            Prepared::Units(all) => {
                &&& all.len() == units.len() + order.len()
                &&& units.is_prefix_of(all)
                &&& order.len() <= snapshots.len()
                &&& forall|i: int|
                    0 <= i < order.len() ==> infos.contains_key(#[trigger] order[i])
                        && snapshots[i] is Unpacked && all[units.len() + i].info == infos[order[i]]
                        && all[units.len() + i].build_dir == snapshots[i]->Unpacked_0
            },
            Prepared::Download(info) => {
                &&& snapshots.len() < order.len()
                &&& info == infos[order[snapshots.len() as int]]
                &&& forall|i: int|
                    0 <= i <= snapshots.len() ==> infos.contains_key(#[trigger] order[i])
                &&& forall|i: int|
                    0 <= i < snapshots.len() ==> (#[trigger] snapshots[i]) is Unpacked
            },
            Prepared::Failed(message) => exists|i: int|
                0 <= i < order.len() && i <= snapshots.len() && (!infos.contains_key(
                    #[trigger] order[i],
                ) && message == "missing AUR metadata for '"@ + order[i] + "'"@
                    || infos.contains_key(order[i]) && i < snapshots.len() && snapshots[i]
                    == SnapshotModel::Failed(message)) && forall|j: int|
                    0 <= j < i ==> infos.contains_key(#[trigger] order[j])
                        && snapshots[j] is Unpacked,
        },
    decreases order.len(),
{
    if order.len() == 0 {
        assert(units =~= units.subrange(0, units.len() as int));
    } else if !infos.contains_key(order[0]) {
        assert(!infos.contains_key(order[0int]));
    } else if snapshots.len() > 0 {
        if let SnapshotModel::Unpacked(build_dir) = snapshots[0] {
            let rest = order.drop_first();
            let later = snapshots.drop_first();
            let next = units.push(UnitModel { info: infos[order[0]], build_dir });
            units_go_with_their_sources(rest, infos, later, next);
            match prepare(order, infos, snapshots, units) {
                Prepared::Units(all) => {
                    assert forall|i: int| 0 <= i < next.len() implies all[i] == #[trigger] next[i] by {
                        assert(all.subrange(0, next.len() as int)[i] == next[i]);
                    }
                    assert forall|i: int| 0 <= i < order.len() implies infos.contains_key(
                        #[trigger] order[i],
                    ) && snapshots[i] is Unpacked && all[units.len() + i].info == infos[order[i]]
                        && all[units.len() + i].build_dir == snapshots[i]->Unpacked_0 by {
                        if i == 0 {
                            assert(all[units.len() as int] == next[units.len() as int]);
                        } else {
                            assert(rest[i - 1] == order[i]);
                            assert(later[i - 1] == snapshots[i]);
                        }
                    }
                    assert forall|i: int| 0 <= i < units.len() implies all[i] == #[trigger] units[i] by {
                        assert(all[i] == next[i]);
                    }
                    assert(units =~= all.subrange(0, units.len() as int));
                },
                Prepared::Download(_) => {
                    assert forall|i: int| 0 <= i <= snapshots.len() implies infos.contains_key(
                        #[trigger] order[i],
                    ) by {
                        if i > 0 {
                            assert(rest[i - 1] == order[i]);
                        }
                    }
                    assert forall|i: int| 0 <= i < snapshots.len() implies (
                    #[trigger] snapshots[i]) is Unpacked by {
                        if i > 0 {
                            assert(later[i - 1] == snapshots[i]);
                        }
                    }
                },
                Prepared::Failed(message) => {
                    assert(prepare(rest, infos, later, next) == Prepared::Failed(message));
                    let i = choose|i: int|
                        0 <= i < rest.len() && i <= later.len() && (!infos.contains_key(
                            #[trigger] rest[i],
                        ) && message == "missing AUR metadata for '"@ + rest[i] + "'"@
                            || infos.contains_key(rest[i]) && i < later.len() && later[i]
                            == SnapshotModel::Failed(message)) && forall|j: int|
                            0 <= j < i ==> infos.contains_key(#[trigger] rest[j])
                                && later[j] is Unpacked;
                    assert(order[i + 1] == rest[i]);
                    if i < later.len() {
                        assert(snapshots[i + 1] == later[i]);
                    }
                    assert forall|j: int| 0 <= j < i + 1 implies infos.contains_key(
                        #[trigger] order[j],
                    ) && snapshots[j] is Unpacked by {
                        if j > 0 {
                            assert(rest[j - 1] == order[j]);
                            assert(later[j - 1] == snapshots[j]);
                        }
                    }
                },
            }
        } else {
            assert(infos.contains_key(order[0int]));
        }
    }
}

/// A file is a built package by the end of its name alone.
pub proof fn package_files_are_told_by_their_ends(name: Seq<char>)
    ensures
        is_package_file(name + ".pkg.tar.zst"@),
        is_package_file(name + ".pkg.tar.xz"@),
        is_package_file(name) <==> exists|stem: Seq<char>|
            name == #[trigger] (stem + ".pkg.tar.zst"@) || name == stem + ".pkg.tar.xz"@,
{
    let zst = ".pkg.tar.zst"@;
    let xz = ".pkg.tar.xz"@;
    lemma_suffix_of(name, zst);
    lemma_suffix_of(name, xz);
    if zst.is_suffix_of(name) {
        let stem = name.subrange(0, name.len() - zst.len());
        assert(stem + zst =~= name);
    }
    if xz.is_suffix_of(name) {
        let stem = name.subrange(0, name.len() - xz.len());
        assert(stem + xz =~= name);
        assert((stem + zst).len() >= 0);
    }
    if exists|stem: Seq<char>| name == #[trigger] (stem + zst) || name == stem + xz {
        let stem = choose|stem: Seq<char>| name == #[trigger] (stem + zst) || name == stem + xz;
        lemma_suffix_of(stem, zst);
        lemma_suffix_of(stem, xz);
    }
}

proof fn lemma_suffix_of(front: Seq<char>, end: Seq<char>)
    ensures
        end.is_suffix_of(front + end),
{
    let whole = front + end;
    assert(whole.subrange(whole.len() - end.len(), whole.len() as int) =~= end);
}

/// Of the files of a directory, those that are built packages are picked, each with the directory
/// before its name, in their order, and no other.
pub proof fn built_packages_are_picked(
    build_dir: Seq<char>,
    first: Seq<Seq<char>>,
    second: Seq<Seq<char>>,
    name: Seq<char>,
)
    ensures
        package_paths(build_dir, first + second) == package_paths(build_dir, first) + package_paths(
            build_dir,
            second,
        ),
        is_package_file(name) ==> package_paths(build_dir, seq![name]) == seq![
            joined_path(build_dir, name),
        ],
        !is_package_file(name) ==> package_paths(build_dir, seq![name]) == Seq::<Seq<char>>::empty(),
    decreases second.len(),
{
    let none = Seq::<Seq<char>>::empty();
    assert(package_paths(build_dir, none) =~= none);
    assert(seq![name].drop_last() =~= none);
    assert(seq![name].last() == name);
    assert(none.push(joined_path(build_dir, name)) =~= seq![joined_path(build_dir, name)]);
    if second.len() == 0 {
        assert(first + second =~= first);
        assert(package_paths(build_dir, first) + package_paths(build_dir, second)
            =~= package_paths(build_dir, first));
    } else {
        assert((first + second).drop_last() =~= first + second.drop_last());
        assert((first + second).last() == second.last());
        built_packages_are_picked(build_dir, first, second.drop_last(), name);
        assert(package_paths(build_dir, first + second) =~= package_paths(build_dir, first)
            + package_paths(build_dir, second));
    }
}

/// The first failure is the one that is told; there is none exactly if every package was built.
pub proof fn first_failure_is_told(built: Seq<Result<Vec<String>, String>>)
    ensures
        match first_failure(built) {
            Some(message) => exists|i: int|
                0 <= i < built.len() && (#[trigger] built[i]) is Err && message == built[i]->Err_0@
                    && forall|j: int| 0 <= j < i ==> (#[trigger] built[j]) is Ok,
            None => forall|i: int| 0 <= i < built.len() ==> (#[trigger] built[i]) is Ok,
        },
    decreases built.len(),
{
    if built.len() > 0 {
        let rest = built.drop_first();
        first_failure_is_told(rest);
        if built[0] is Err {
            assert(built[0int] is Err);
        } else {
            match first_failure(rest) {
                Some(message) => {
                    let i = choose|i: int|
                        0 <= i < rest.len() && (#[trigger] rest[i]) is Err && message
                            == rest[i]->Err_0@ && forall|j: int|
                            0 <= j < i ==> (#[trigger] rest[j]) is Ok;
                    assert(built[i + 1] == rest[i]);
                    assert forall|j: int| 0 <= j < i + 1 implies (#[trigger] built[j]) is Ok by {
                        if j > 0 {
                            assert(rest[j - 1] == built[j]);
                        }
                    }
                },
                None => {
                    assert forall|i: int| 0 <= i < built.len() implies (
                    #[trigger] built[i]) is Ok by {
                        if i > 0 {
                            assert(rest[i - 1] == built[i]);
                        }
                    }
                },
            }
        }
    }
}

/// The files of packages that were built are those of each package, one package after another, each
/// once and in its own order, and no other.
pub proof fn files_come_package_by_package(
    first: Seq<Result<Vec<String>, String>>,
    second: Seq<Result<Vec<String>, String>>,
    files: Vec<String>,
)
    ensures
        all_files(first + second) == all_files(first) + all_files(second),
        all_files(seq![Ok(files)]) == texts(files@),
    decreases first.len(),
{
    let none = Seq::<Result<Vec<String>, String>>::empty();
    let one: Seq<Result<Vec<String>, String>> = seq![Ok(files)];
    assert(all_files(none) =~= Seq::<Seq<char>>::empty());
    assert(one.drop_first() =~= none);
    assert(all_files(one) =~= texts(files@));
    if first.len() == 0 {
        assert(first + second =~= second);
        assert(all_files(first) + all_files(second) =~= all_files(second));
    } else {
        assert((first + second)[0] == first[0]);
        assert((first + second).drop_first() =~= first.drop_first() + second);
        files_come_package_by_package(first.drop_first(), second, files);
        assert(all_files(first + second) =~= all_files(first) + all_files(second));
    }
}

/// The steps come in turn: the look, the question, one package after another, and the installation
/// of all files. A failure of any of them is told, and ends it, and so does a user who does not
/// agree.
pub proof fn aur_steps_come_in_turn(
    units: Seq<UnitModel>,
    review: Option<Result<(), String>>,
    consent: Option<bool>,
    built: Seq<Result<Vec<String>, String>>,
)
    ensures
        ({
            let step = following_aur_step(units, review, consent, built);
            let seen = review is Some && review->0 is Ok;
            let agreed = seen && consent == Some(true);
            &&& step is Review <==> review is None
            &&& review is Some && review->0 is Err ==> step == AurStepModel::Failed(
                (review->0)->Err_0@,
            )
            &&& step is Confirm <==> seen && consent is None
            &&& step is Cancelled <==> seen && consent == Some(false)
            &&& agreed && first_failure(built) is Some ==> step == AurStepModel::Failed(
                first_failure(built)->0,
            )
            &&& agreed && first_failure(built) is None && built.len() < units.len() ==> step
                == AurStepModel::Build(built.len())
            &&& agreed && first_failure(built) is None && built.len() >= units.len() ==> step
                == AurStepModel::Install(all_files(built))
        }),
{
}

/// The texts of packages to build and of their sources are those of their fields, each in its
/// place.
pub proof fn unit_texts_are_their_fields(
    units: Seq<AurBuildUnit>,
    snapshots: Seq<Snapshot>,
    i: int,
)
    ensures
        unit_models(units).len() == units.len(),
        0 <= i < units.len() ==> unit_models(units)[i].info == units[i].info@ && unit_models(
            units,
        )[i].build_dir == units[i].build_dir@,
        snapshot_models(snapshots).len() == snapshots.len(),
        0 <= i < snapshots.len() && snapshots[i] is Unpacked ==> snapshot_models(snapshots)[i]
            == SnapshotModel::Unpacked(snapshots[i]->Unpacked_0@),
        0 <= i < snapshots.len() && snapshots[i] is Failed ==> snapshot_models(snapshots)[i]
            == SnapshotModel::Failed(snapshots[i]->Failed_0@),
{
}

/// The texts of a step are those of the step.
pub proof fn aur_step_texts_are_those_of_the_step(step: AurStep)
    ensures
        step is Review <==> step@ is Review,
        step is Confirm <==> step@ is Confirm,
        step is Cancelled <==> step@ is Cancelled,
        step is Build <==> step@ is Build,
        step is Install <==> step@ is Install,
        step is Failed <==> step@ is Failed,
        step is Build ==> step@->Build_0 == step->Build_0,
        step is Install ==> step@->Install_0 == texts(step->Install_0@),
        step is Failed ==> step@->Failed_0 == step->Failed_0@,
{
}

/// That nothing was built is told with the directory that was looked into.
pub proof fn empty_directory_is_named(build_dir: Seq<char>)
    ensures
        nothing_built_message(build_dir) == "no built package files found in '"@ + build_dir + "'"@,
{
}

} // verus!

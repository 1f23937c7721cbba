//! The repositories that pacman's configuration names.
//!
//! The configuration may include other files. Their contents are an argument here, in the order in
//! which they are included: the outcome is either the repositories or the path of the file to read
//! next.

use crate::process::{Invocation, InvocationModel};
use crate::text::{
    after_prefix, chars_of, ends_with, lemma_trim_start_of, lines, lines_of, replace, replaced,
    rest_follows_the_prefix, same, starts_with, string_of, strip_prefix, texts, trim, trim_start,
    trimmed, trimmed_start, trimming_leaves_the_core, white_space,
};
use vstd::prelude::*;

verus! {

/// A repository and the addresses of its servers.
#[derive(Debug)]
pub struct Repository {
    pub name: String,
    pub servers: Vec<String>,
}

/// The texts that a repository entry holds.
#[verifier::ext_equal]
pub struct RepositoryModel {
    pub name: Seq<char>,
    pub servers: Seq<Seq<char>>,
}

impl View for Repository {
    type V = RepositoryModel;

    open spec fn view(&self) -> RepositoryModel {
        RepositoryModel { name: self.name@, servers: texts(self.servers@) }
    }
}

/// The texts that a list of repository entries holds.
pub open spec fn repository_models(repositories: Seq<Repository>) -> Seq<RepositoryModel> {
    Seq::new(repositories.len(), |i: int| repositories[i]@)
}

/// What a line of the configuration says.
pub enum Directive {
    /// A section of this name begins.
    Section(Seq<char>),
    /// The section has a server at this address.
    Server(Seq<char>),
    /// The section includes the file at this path.
    Include(Seq<char>),
    /// Nothing that names a repository or a server.
    Other,
}

/// The value that `line` gives to `key`: what follows the key and an equals sign, which may have
/// white space before it.
pub open spec fn setting(line: Seq<char>, key: Seq<char>) -> Option<Seq<char>> {
    match after_prefix(line, key) {
        Some(rest) => match after_prefix(trimmed_start(rest), "="@) {
            Some(value) => Some(trimmed(value)),
            None => None,
        },
        None => None,
    }
}

/// What a line without white space around it says.
pub open spec fn directive(line: Seq<char>) -> Directive {
    if "["@.is_prefix_of(line) && "]"@.is_suffix_of(line) {
        Directive::Section(line.subrange(1, line.len() - 1))
    } else if setting(line, "Server"@) is Some {
        Directive::Server(setting(line, "Server"@)->0)
    } else if setting(line, "Include"@) is Some {
        Directive::Include(setting(line, "Include"@)->0)
    } else {
        Directive::Other
    }
}

/// The address of a server of a repository, for a machine architecture.
pub open spec fn server_address(
    value: Seq<char>,
    repository: Seq<char>,
    arch: Seq<char>,
) -> Seq<char> {
    replaced(replaced(value, "$repo"@, repository), "$arch"@, arch)
}

/// The addresses of the servers that the lines of an included file name.
pub open spec fn mirrors(
    lines: Seq<Seq<char>>,
    repository: Seq<char>,
    arch: Seq<char>,
) -> Seq<Seq<char>>
    decreases lines.len(),
{
    if lines.len() == 0 {
        seq![]
    } else {
        let line = trimmed(lines[0]);
        let others = mirrors(lines.drop_first(), repository, arch);
        if !"#"@.is_prefix_of(line) && setting(line, "Server"@) is Some {
            seq![server_address(setting(line, "Server"@)->0, repository, arch)] + others
        } else {
            others
        }
    }
}

/// The repositories, with `servers` added to the last one.
pub open spec fn with_servers(
    repositories: Seq<RepositoryModel>,
    servers: Seq<Seq<char>>,
) -> Seq<RepositoryModel> {
    let last = repositories.last();
    repositories.drop_last().push(
        RepositoryModel { name: last.name, servers: last.servers + servers },
    )
}

/// How far the included files lead.
#[verifier::ext_equal]
pub enum Parsed {
    /// To the end, with these repositories.
    Repositories(Seq<RepositoryModel>),
    /// To the file at this path, which has to be read.
    Read(Seq<char>),
}

/// Reads the lines of the configuration one after another. `repositories` are those found before,
/// the last of which is the section that the lines belong to if `open`. `files` are the contents of
/// the files to include; a file that cannot be read has none.
pub open spec fn parse_lines(
    lines: Seq<Seq<char>>,
    repositories: Seq<RepositoryModel>,
    open: bool,
    files: Seq<Option<Seq<char>>>,
    arch: Seq<char>,
) -> Parsed
    decreases lines.len(),
{
    if lines.len() == 0 {
        Parsed::Repositories(repositories)
    } else {
        let others = lines.drop_first();
        match directive(trimmed(lines[0])) {
            Directive::Section(name) => if name == "options"@ {
                parse_lines(others, repositories, false, files, arch)
            } else {
                parse_lines(
                    others,
                    repositories.push(RepositoryModel { name, servers: seq![] }),
                    true,
                    files,
                    arch,
                )
            },
            Directive::Server(value) => if open {
                parse_lines(
                    others,
                    with_servers(
                        repositories,
                        seq![server_address(value, repositories.last().name, arch)],
                    ),
                    true,
                    files,
                    arch,
                )
            } else {
                parse_lines(others, repositories, open, files, arch)
            },
            Directive::Include(path) => if !open {
                parse_lines(others, repositories, open, files, arch)
            } else if files.len() == 0 {
                Parsed::Read(path)
            } else {
                parse_lines(
                    others,
                    match files[0] {
                        Some(content) => with_servers(
                            repositories,
                            mirrors(lines_of(content), repositories.last().name, arch),
                        ),
                        None => repositories,
                    },
                    true,
                    files.drop_first(),
                    arch,
                )
            },
            Directive::Other => parse_lines(others, repositories, open, files, arch),
        }
    }
}

/// The repositories of a configuration, for a machine architecture.
pub open spec fn parse_conf(
    conf: Seq<char>,
    files: Seq<Option<Seq<char>>>,
    arch: Seq<char>,
) -> Parsed {
    parse_lines(lines_of(conf), seq![], false, files, arch)
}

/// The value that `line` gives to `key`.
pub fn setting_of(line: &str, key: &str) -> (r: Option<String>)
    ensures
        r is Some <==> setting(line@, key@) is Some,
        r is Some ==> setting(line@, key@) == Some(r->0@),
{
    match strip_prefix(line, key) {
        Some(rest) => match strip_prefix(trim_start(rest), "=") {
            Some(value) => Some(trim(value).to_owned()),
            None => None,
        },
        None => None,
    }
}

fn address_of(value: &str, repository: &str, arch: &str) -> (r: String)
    ensures
        r@ == server_address(value@, repository@, arch@),
{
    proof {
        reveal_strlit("$repo");
        reveal_strlit("$arch");
    }
    replace(replace(value, "$repo", repository).as_str(), "$arch", arch)
}

/// Adds the servers that an included file names to `servers`.
fn add_mirrors(content: &str, repository: &str, arch: &str, servers: &mut Vec<String>)
    ensures
        texts(final(servers)@) == texts(old(servers)@) + mirrors(
            lines_of(content@),
            repository@,
            arch@,
        ),
{
    let all = lines(content);
    let ghost given = texts(all@);
    let ghost before = texts(servers@);
    let mut i: usize = 0;
    assert(given.skip(0) =~= given);
    while i < all.len()
        invariant
            i <= all@.len(),
            given == texts(all@),
            before + mirrors(given, repository@, arch@) =~= texts(servers@) + mirrors(
                given.skip(i as int),
                repository@,
                arch@,
            ),
        decreases all@.len() - i,
    {
        let ghost held = texts(servers@);
        let ghost here = given.skip(i as int);
        assert(here[0] == all@[i as int]@);
        assert(here.drop_first() =~= given.skip(i + 1));
        let line = trim(all[i].as_str());
        i += 1;
        if starts_with(line, "#") {
            continue;
        }
        if let Some(value) = setting_of(line, "Server") {
            let address = address_of(value.as_str(), repository, arch);
            servers.push(address);
            assert(texts(servers@) =~= held + seq![address@]);
        }
    }
    assert(given.skip(i as int) =~= Seq::<Seq<char>>::empty());
}

/// The texts that the contents of files hold.
pub open spec fn file_texts(files: Seq<Option<String>>) -> Seq<Option<Seq<char>>> {
    Seq::new(files.len(), |i: int| crate::aur::optional_text(files[i]))
}

/// Why a configuration could not be taken in.
#[derive(Debug)]
pub enum ConfStop {
    /// The included file at this path has to be read.
    Read(String),
    /// The configuration is of no use, with this message.
    Failed(String),
}

/// Reads pacman's configuration: the repositories that it names, each with the addresses of its
/// servers.
pub fn parse_pacman_conf(conf: &str, files: &Vec<Option<String>>, arch: &str) -> (r: Result<
    Vec<Repository>,
    ConfStop,
>)
    ensures
        match parse_conf(conf@, file_texts(files@), arch@) {
            Parsed::Read(path) => r matches Err(ConfStop::Read(asked)) && asked@ == path,
            Parsed::Repositories(found) => if found.len() == 0 {
                r matches Err(ConfStop::Failed(message)) && message@
                    == "no repositories found in /etc/pacman.conf"@
            } else {
                r matches Ok(repositories) && repository_models(repositories@) == found
            },
        },
{
    let all = lines(conf);
    let ghost given = texts(all@);
    let ghost contents = file_texts(files@);
    let ghost whole = parse_conf(conf@, contents, arch@);
    let mut repositories: Vec<Repository> = Vec::new();
    let mut open: bool = false;
    let mut used: usize = 0;
    let mut i: usize = 0;
    assert(given.skip(0) =~= given);
    assert(contents.skip(0) =~= contents);
    assert(repository_models(repositories@) =~= Seq::<RepositoryModel>::empty());
    while i < all.len()
        invariant
            i <= all@.len(),
            used <= files@.len(),
            given == texts(all@),
            contents == file_texts(files@),
            open ==> repositories@.len() > 0,
            whole == parse_conf(conf@, contents, arch@),
            whole == parse_lines(
                given.skip(i as int),
                repository_models(repositories@),
                open,
                contents.skip(used as int),
                arch@,
            ),
        decreases all@.len() - i,
    {
        let ghost here = given.skip(i as int);
        let ghost found = repository_models(repositories@);
        assert(here[0] == all@[i as int]@);
        assert(here.drop_first() =~= given.skip(i + 1));
        let line = trim(all[i].as_str());
        i += 1;
        if starts_with(line, "[") && ends_with(line, "]") {
            proof {
                reveal_strlit("[");
                reveal_strlit("]");
                assert("["@[0] == line@.subrange(0, 1)[0]);
                assert("]"@[0] == line@.subrange(line@.len() - 1, line@.len() as int)[0]);
                assert(line@.len() > 1);
            }
            let chars = chars_of(line);
            let section = string_of(&chars, 1, chars.len() - 1);
            if same(section.as_str(), "options") {
                open = false;
            } else {
                repositories.push(Repository { name: section, servers: Vec::new() });
                open = true;
                assert(texts(repositories@.last().servers@) =~= Seq::<Seq<char>>::empty());
                assert(repository_models(repositories@) =~= found.push(
                    RepositoryModel { name: section@, servers: seq![] },
                ));
            }
            continue;
        }
        if !open {
            continue;
        }
        if let Some(value) = setting_of(line, "Server") {
            let mut repository = repositories.pop().unwrap();
            assert(found.last() == repository@);
            let ghost servers = texts(repository.servers@);
            let address = address_of(value.as_str(), repository.name.as_str(), arch);
            repository.servers.push(address);
            assert(texts(repository.servers@) =~= servers + seq![address@]);
            repositories.push(repository);
            assert(repository_models(repositories@) =~= with_servers(found, seq![address@]));
        } else if let Some(path) = setting_of(line, "Include") {
            if used == files.len() {
                return Err(ConfStop::Read(path));
            }
            assert(contents.skip(used as int)[0] == contents[used as int]);
            assert(contents.skip(used as int).drop_first() =~= contents.skip(used + 1));
            if let Some(content) = &files[used] {
                let mut repository = repositories.pop().unwrap();
                assert(found.last() == repository@);
                let ghost servers = mirrors(lines_of(content@), repository.name@, arch@);
                let name = repository.name.clone();
                add_mirrors(content.as_str(), name.as_str(), arch, &mut repository.servers);
                repositories.push(repository);
                assert(repository_models(repositories@) =~= with_servers(found, servers));
            }
            used += 1;
        }
    }
    assert(given.skip(i as int) =~= Seq::<Seq<char>>::empty());
    if repositories.is_empty() {
        return Err(
            ConfStop::Failed(String::from_str("no repositories found in /etc/pacman.conf")),
        );
    }
    Ok(repositories)
}

/// The message for a machine on which no repository could be registered.
pub open spec fn nothing_registered_message() -> Seq<char> {
    "no sync databases could be registered"@
}

/// Reads the configuration of the repositories, by what reading its file brought and by the
/// included files that were read so far.
pub fn register_sync_dbs(
    conf: &Result<String, String>,
    files: &Vec<Option<String>>,
    arch: &str,
) -> (r: Result<Vec<Repository>, ConfStop>)
    ensures
        match *conf {
            Err(reason) => r matches Err(ConfStop::Failed(message)) && message@
                == "failed to read /etc/pacman.conf: "@ + reason@,
            Ok(text) => match parse_conf(text@, file_texts(files@), arch@) {
                Parsed::Read(path) => r matches Err(ConfStop::Read(asked)) && asked@ == path,
                Parsed::Repositories(found) => if found.len() == 0 {
                    r matches Err(ConfStop::Failed(message)) && message@
                        == "no repositories found in /etc/pacman.conf"@
                } else {
                    r matches Ok(repositories) && repository_models(repositories@) == found
                },
            },
        },
{
    match conf {
        Err(reason) => Err(
            ConfStop::Failed(
                String::from_str("failed to read /etc/pacman.conf: ").concat(reason.as_str()),
            ),
        ),
        Ok(text) => parse_pacman_conf(text.as_str(), files, arch),
    }
}

/// Judges the registration of the repositories by how many were registered.
pub fn registration_result(registered: usize) -> (r: Result<(), String>)
    ensures
        match r {
            Ok(()) => registered > 0,
            Err(message) => registered == 0 && message@ == nothing_registered_message(),
        },
{
    if registered == 0 {
        Err(String::from_str("no sync databases could be registered"))
    } else {
        Ok(())
    }
}

/// How many repositories were registered.
pub open spec fn count_registered(results: Seq<bool>) -> nat
    decreases results.len(),
{
    if results.len() == 0 {
        0
    } else {
        count_registered(results.drop_last()) + if results.last() {
            1nat
        } else {
            0nat
        }
    }
}

/// Counts the repositories that were registered; the others are passed over.
pub fn registered_count(results: &Vec<bool>) -> (r: usize)
    ensures
        r == count_registered(results@),
        r <= results@.len(),
{
    let mut r: usize = 0;
    let mut i: usize = 0;
    while i < results.len()
        invariant
            i <= results@.len(),
            r <= i,
            r == count_registered(results@.take(i as int)),
        decreases results@.len() - i,
    {
        assert(results@.take(i + 1).drop_last() =~= results@.take(i as int));
        if results[i] {
            r += 1;
        }
        i += 1;
    }
    assert(results@.take(i as int) =~= results@);
    r
}

/// One repository that is registered is enough.
pub proof fn one_repository_is_enough(results: Seq<bool>)
    ensures
        count_registered(results) > 0 <==> results.contains(true),
    decreases results.len(),
{
    if results.len() > 0 {
        let before = results.drop_last();
        one_repository_is_enough(before);
        if before.contains(true) {
            let i = choose|i: int| 0 <= i < before.len() && before[i] == true;
            assert(results[i] == true);
        }
        if results.last() {
            assert(results[results.len() - 1] == true);
        }
        if results.contains(true) && !results.last() {
            let i = choose|i: int| 0 <= i < results.len() && results[i] == true;
            assert(before[i] == true);
        }
    }
}

/// The program that prints the machine architecture.
pub fn machine_command() -> (r: Invocation)
    ensures
        r@ == (InvocationModel { program: "uname"@, args: seq!["-m"@] }),
{
    let args = vec![String::from_str("-m")];
    assert(texts(args@) =~= seq!["-m"@]);
    Invocation { program: String::from_str("uname"), args }
}

/// The machine architecture: what `uname -m` printed, without white space around it, or the common
/// one if it could not be run.
pub fn machine_arch(printed: Option<&str>) -> (r: String)
    ensures
        r@ == (match printed {
            Some(text) => trimmed(text@),
            None => "x86_64"@,
        }),
{
    match printed {
        Some(text) => trim(text).to_owned(),
        None => String::from_str("x86_64"),
    }
}

/// A line that names no section, server or file changes nothing, wherever it stands.
pub proof fn other_lines_change_nothing(
    before: Seq<Seq<char>>,
    line: Seq<char>,
    after: Seq<Seq<char>>,
    repositories: Seq<RepositoryModel>,
    open: bool,
    files: Seq<Option<Seq<char>>>,
    arch: Seq<char>,
)
    requires
        directive(trimmed(line)) is Other,
    ensures
        parse_lines(before + seq![line] + after, repositories, open, files, arch) == parse_lines(
            before + after,
            repositories,
            open,
            files,
            arch,
        ),
    decreases before.len(),
{
    let with = before + seq![line] + after;
    let without = before + after;
    if before.len() == 0 {
        assert(with[0] == line);
        assert(with.drop_first() =~= without);
    } else {
        let rest = before.drop_first();
        assert(with[0] == before[0]);
        assert(without[0] == before[0]);
        assert(with.drop_first() =~= rest + seq![line] + after);
        assert(without.drop_first() =~= rest + after);
        match directive(trimmed(before[0])) {
            Directive::Section(name) => {
                other_lines_change_nothing(rest, line, after, repositories, false, files, arch);
                other_lines_change_nothing(
                    rest,
                    line,
                    after,
                    repositories.push(RepositoryModel { name, servers: seq![] }),
                    true,
                    files,
                    arch,
                );
            },
            Directive::Server(value) => {
                let added = with_servers(
                    repositories,
                    seq![server_address(value, repositories.last().name, arch)],
                );
                other_lines_change_nothing(rest, line, after, added, true, files, arch);
                other_lines_change_nothing(rest, line, after, repositories, open, files, arch);
            },
            Directive::Include(_) => {
                other_lines_change_nothing(rest, line, after, repositories, open, files, arch);
                if files.len() > 0 {
                    let added = match files[0] {
                        Some(content) => with_servers(
                            repositories,
                            mirrors(lines_of(content), repositories.last().name, arch),
                        ),
                        None => repositories,
                    };
                    other_lines_change_nothing(
                        rest,
                        line,
                        after,
                        added,
                        true,
                        files.drop_first(),
                        arch,
                    );
                }
            },
            Directive::Other => {
                other_lines_change_nothing(rest, line, after, repositories, open, files, arch);
            },
        }
    }
}

/// A comment names no section, server or file.
pub proof fn comment_is_other(line: Seq<char>)
    requires
        "#"@.is_prefix_of(line),
    ensures
        directive(line) is Other,
{
    reveal_strlit("#");
    reveal_strlit("[");
    reveal_strlit("Server");
    reveal_strlit("Include");
    assert("#"@[0] == line.subrange(0, 1)[0]);
    if "["@.is_prefix_of(line) {
        assert("["@[0] == line.subrange(0, 1)[0]);
    }
    if "Server"@.is_prefix_of(line) {
        assert("Server"@[0] == line.subrange(0, 6)[0]);
    }
    if "Include"@.is_prefix_of(line) {
        assert("Include"@[0] == line.subrange(0, 7)[0]);
    }
}

/// The section of options is no repository: no repository that is read has its name.
pub proof fn options_are_no_repository(
    lines: Seq<Seq<char>>,
    repositories: Seq<RepositoryModel>,
    open: bool,
    files: Seq<Option<Seq<char>>>,
    arch: Seq<char>,
)
    requires
        open ==> repositories.len() > 0,
        forall|i: int|
            0 <= i < repositories.len() ==> (#[trigger] repositories[i]).name != "options"@,
    ensures
        parse_lines(lines, repositories, open, files, arch) matches Parsed::Repositories(found)
            ==> forall|i: int| 0 <= i < found.len() ==> (#[trigger] found[i]).name != "options"@,
    decreases lines.len(),
{
    if lines.len() > 0 {
        let rest = lines.drop_first();
        match directive(trimmed(lines[0])) {
            Directive::Section(name) => {
                if name == "options"@ {
                    options_are_no_repository(rest, repositories, false, files, arch);
                } else {
                    options_are_no_repository(
                        rest,
                        repositories.push(RepositoryModel { name, servers: seq![] }),
                        true,
                        files,
                        arch,
                    );
                }
            },
            Directive::Server(value) => {
                if open {
                    assert(repositories.last().name != "options"@);
                    options_are_no_repository(
                        rest,
                        with_servers(
                            repositories,
                            seq![server_address(value, repositories.last().name, arch)],
                        ),
                        true,
                        files,
                        arch,
                    );
                } else {
                    options_are_no_repository(rest, repositories, open, files, arch);
                }
            },
            Directive::Include(_) => {
                if !open {
                    options_are_no_repository(rest, repositories, open, files, arch);
                } else if files.len() > 0 {
                    assert(repositories.last().name != "options"@);
                    options_are_no_repository(
                        rest,
                        match files[0] {
                            Some(content) => with_servers(
                                repositories,
                                mirrors(lines_of(content), repositories.last().name, arch),
                            ),
                            None => repositories,
                        },
                        true,
                        files.drop_first(),
                        arch,
                    );
                }
            },
            Directive::Other => {
                options_are_no_repository(rest, repositories, open, files, arch);
            },
        }
    }
}

/// More files at hand change nothing once the repositories are known.
pub proof fn known_repositories_ignore_more_files(
    lines: Seq<Seq<char>>,
    repositories: Seq<RepositoryModel>,
    open: bool,
    files: Seq<Option<Seq<char>>>,
    more: Seq<Option<Seq<char>>>,
    arch: Seq<char>,
)
    requires
        parse_lines(lines, repositories, open, files, arch) is Repositories,
    ensures
        parse_lines(lines, repositories, open, files + more, arch) == parse_lines(
            lines,
            repositories,
            open,
            files,
            arch,
        ),
    decreases lines.len(),
{
    if lines.len() > 0 {
        let rest = lines.drop_first();
        match directive(trimmed(lines[0])) {
            Directive::Section(name) => {
                if name == "options"@ {
                    known_repositories_ignore_more_files(
                        rest,
                        repositories,
                        false,
                        files,
                        more,
                        arch,
                    );
                } else {
                    known_repositories_ignore_more_files(
                        rest,
                        repositories.push(RepositoryModel { name, servers: seq![] }),
                        true,
                        files,
                        more,
                        arch,
                    );
                }
            },
            Directive::Server(value) => {
                if open {
                    known_repositories_ignore_more_files(
                        rest,
                        with_servers(
                            repositories,
                            seq![server_address(value, repositories.last().name, arch)],
                        ),
                        true,
                        files,
                        more,
                        arch,
                    );
                } else {
                    known_repositories_ignore_more_files(
                        rest,
                        repositories,
                        open,
                        files,
                        more,
                        arch,
                    );
                }
            },
            Directive::Include(_) => {
                if !open {
                    known_repositories_ignore_more_files(
                        rest,
                        repositories,
                        open,
                        files,
                        more,
                        arch,
                    );
                } else {
                    assert((files + more)[0] == files[0]);
                    assert((files + more).drop_first() =~= files.drop_first() + more);
                    known_repositories_ignore_more_files(
                        rest,
                        match files[0] {
                            Some(content) => with_servers(
                                repositories,
                                mirrors(lines_of(content), repositories.last().name, arch),
                            ),
                            None => repositories,
                        },
                        true,
                        files.drop_first(),
                        more,
                        arch,
                    );
                }
            },
            Directive::Other => {
                known_repositories_ignore_more_files(
                    rest,
                    repositories,
                    open,
                    files,
                    more,
                    arch,
                );
            },
        }
    }
}

proof fn lemma_added_servers(
    before: Seq<RepositoryModel>,
    mine: Seq<RepositoryModel>,
    servers: Seq<Seq<char>>,
)
    requires
        mine.len() > 0,
    ensures
        with_servers(before + mine, servers) == before + with_servers(mine, servers),
        (before + mine).last() == mine.last(),
{
    assert((before + mine).last() == mine.last());
    assert(with_servers(before + mine, servers) =~= before + with_servers(mine, servers));
}

/// What a section yields does not depend on the sections before it.
pub proof fn sections_stand_alone(
    lines: Seq<Seq<char>>,
    before: Seq<RepositoryModel>,
    mine: Seq<RepositoryModel>,
    open: bool,
    files: Seq<Option<Seq<char>>>,
    arch: Seq<char>,
)
    requires
        open ==> mine.len() > 0,
    ensures
        match parse_lines(lines, mine, open, files, arch) {
            Parsed::Repositories(found) => parse_lines(lines, before + mine, open, files, arch)
                == Parsed::Repositories(before + found),
            Parsed::Read(path) => parse_lines(lines, before + mine, open, files, arch)
                == Parsed::Read(path),
        },
    decreases lines.len(),
{
    if lines.len() > 0 {
        let rest = lines.drop_first();
        match directive(trimmed(lines[0])) {
            Directive::Section(name) => {
                let fresh = RepositoryModel { name, servers: seq![] };
                sections_stand_alone(rest, before, mine, false, files, arch);
                sections_stand_alone(rest, before, mine.push(fresh), true, files, arch);
                assert((before + mine).push(fresh) =~= before + mine.push(fresh));
            },
            Directive::Server(value) => {
                if open {
                    let servers = seq![server_address(value, mine.last().name, arch)];
                    lemma_added_servers(before, mine, servers);
                    sections_stand_alone(
                        rest,
                        before,
                        with_servers(mine, servers),
                        true,
                        files,
                        arch,
                    );
                } else {
                    sections_stand_alone(rest, before, mine, open, files, arch);
                }
            },
            Directive::Include(_) => {
                if !open {
                    sections_stand_alone(rest, before, mine, open, files, arch);
                } else if files.len() > 0 {
                    match files[0] {
                        Some(content) => {
                            let servers = mirrors(lines_of(content), mine.last().name, arch);
                            lemma_added_servers(before, mine, servers);
                            sections_stand_alone(
                                rest,
                                before,
                                with_servers(mine, servers),
                                true,
                                files.drop_first(),
                                arch,
                            );
                        },
                        None => {
                            sections_stand_alone(
                                rest,
                                before,
                                mine,
                                true,
                                files.drop_first(),
                                arch,
                            );
                        },
                    }
                }
            },
            Directive::Other => {
                sections_stand_alone(rest, before, mine, open, files, arch);
            },
        }
    }
}

/// Whether a text is white space all through.
pub open spec fn is_blank(s: Seq<char>) -> bool {
    forall|i: int| 0 <= i < s.len() ==> white_space(#[trigger] s[i])
}

/// Whether a text has no white space around it.
pub open spec fn is_tight(s: Seq<char>) -> bool {
    s.len() > 0 ==> !white_space(s[0]) && !white_space(s.last())
}

proof fn lemma_setting_of_line(
    front: Seq<char>,
    key: Seq<char>,
    gap: Seq<char>,
    left: Seq<char>,
    value: Seq<char>,
    right: Seq<char>,
)
    requires
        is_blank(front),
        is_blank(gap),
        is_blank(left),
        is_blank(right),
        is_tight(value),
        key.len() > 0,
        !white_space(key[0]),
    ensures
        ({
            let line = trimmed(front + key + gap + "="@ + left + value + right);
            setting(line, key) == Some(value) && key.is_prefix_of(line)
        }),
{
    reveal_strlit("=");
    let none = Seq::<char>::empty();
    let inner = if value.len() > 0 {
        left + value
    } else {
        none
    };
    let after = if value.len() > 0 {
        right
    } else {
        left + right
    };
    let tail = "="@ + inner;
    let line = key + gap + tail;
    assert forall|i: int| 0 <= i < after.len() implies white_space(#[trigger] after[i]) by {
        if value.len() == 0 && i < left.len() {
            assert(after[i] == left[i]);
        } else if value.len() == 0 {
            assert(after[i] == right[i - left.len()]);
        }
    }
    assert(front + key + gap + "="@ + left + value + right =~= front + line + after);
    assert(line[0] == key[0]);
    assert(!white_space(line.last())) by {
        if value.len() > 0 {
            assert(line.last() == value.last());
        } else {
            assert(line.last() == '=');
        }
    }
    trimming_leaves_the_core(front, line, after);
    assert(line =~= key + (gap + tail));
    rest_follows_the_prefix(key, gap + tail, line);
    assert(tail[0] == '=');
    lemma_trim_start_of(gap, tail);
    rest_follows_the_prefix("="@, inner, tail);
    trimming_leaves_the_core(left, value, none);
    assert(left + value + none =~= left + value);
    if value.len() == 0 {
        trimming_leaves_the_core(none, none, none);
        assert(none + none + none =~= none);
        assert(value =~= none);
    }
    assert(line.subrange(0, key.len() as int) =~= key);
}

proof fn lemma_first_char(line: Seq<char>, key: Seq<char>)
    requires
        key.len() > 0,
        key.is_prefix_of(line),
    ensures
        line.len() > 0,
        line[0] == key[0],
{
    assert(line.subrange(0, key.len() as int)[0] == key[0]);
}

/// A line that names a server adds that server to its own section, with the name of this very
/// section and the machine architecture put in; outside a section it counts for nothing.
pub proof fn server_line_adds_a_server(
    front: Seq<char>,
    gap: Seq<char>,
    left: Seq<char>,
    value: Seq<char>,
    right: Seq<char>,
    rest: Seq<Seq<char>>,
    before: Seq<RepositoryModel>,
    name: Seq<char>,
    servers: Seq<Seq<char>>,
    files: Seq<Option<Seq<char>>>,
    arch: Seq<char>,
)
    requires
        is_blank(front),
        is_blank(gap),
        is_blank(left),
        is_blank(right),
        is_tight(value),
    ensures
        ({
            let line = front + "Server"@ + gap + "="@ + left + value + right;
            let address = replaced(replaced(value, "$repo"@, name), "$arch"@, arch);
            &&& parse_lines(
                seq![line] + rest,
                before.push(RepositoryModel { name, servers }),
                true,
                files,
                arch,
            ) == parse_lines(
                rest,
                before.push(RepositoryModel { name, servers: servers.push(address) }),
                true,
                files,
                arch,
            )
            &&& parse_lines(seq![line] + rest, before, false, files, arch) == parse_lines(
                rest,
                before,
                false,
                files,
                arch,
            )
        }),
{
    reveal_strlit("Server");
    reveal_strlit("[");
    let line = front + "Server"@ + gap + "="@ + left + value + right;
    lemma_setting_of_line(front, "Server"@, gap, left, value, right);
    lemma_first_char(trimmed(line), "Server"@);
    if "["@.is_prefix_of(trimmed(line)) {
        lemma_first_char(trimmed(line), "["@);
    }
    assert((seq![line] + rest).drop_first() =~= rest);
    let mine = before.push(RepositoryModel { name, servers });
    let address = replaced(replaced(value, "$repo"@, name), "$arch"@, arch);
    assert(with_servers(mine, seq![address]) =~= before.push(
        RepositoryModel { name, servers: servers.push(address) },
    )) by {
        assert(servers + seq![address] =~= servers.push(address));
        assert(mine.drop_last() =~= before);
    }
}

/// A line that names a file to include adds the servers of that file to its own section, for the
/// name of this very section. A file that cannot be read adds nothing, and one that was not read
/// yet is asked for by its path.
pub proof fn include_line_adds_the_servers_of_its_file(
    front: Seq<char>,
    gap: Seq<char>,
    left: Seq<char>,
    path: Seq<char>,
    right: Seq<char>,
    rest: Seq<Seq<char>>,
    before: Seq<RepositoryModel>,
    name: Seq<char>,
    servers: Seq<Seq<char>>,
    content: Seq<char>,
    files: Seq<Option<Seq<char>>>,
    arch: Seq<char>,
)
    requires
        is_blank(front),
        is_blank(gap),
        is_blank(left),
        is_blank(right),
        is_tight(path),
    ensures
        ({
            let lines = seq![front + "Include"@ + gap + "="@ + left + path + right] + rest;
            let mine = before.push(RepositoryModel { name, servers });
            let added = before.push(
                RepositoryModel {
                    name,
                    servers: servers + mirrors(lines_of(content), name, arch),
                },
            );
            &&& parse_lines(lines, mine, true, seq![Some(content)] + files, arch) == parse_lines(
                rest,
                added,
                true,
                files,
                arch,
            )
            &&& parse_lines(lines, mine, true, seq![None] + files, arch) == parse_lines(
                rest,
                mine,
                true,
                files,
                arch,
            )
            &&& parse_lines(lines, mine, true, seq![], arch) == Parsed::Read(path)
            &&& parse_lines(lines, before, false, files, arch) == parse_lines(
                rest,
                before,
                false,
                files,
                arch,
            )
        }),
{
    reveal_strlit("Server");
    reveal_strlit("Include");
    reveal_strlit("[");
    let line = front + "Include"@ + gap + "="@ + left + path + right;
    lemma_setting_of_line(front, "Include"@, gap, left, path, right);
    let core = trimmed(line);
    lemma_first_char(core, "Include"@);
    if "["@.is_prefix_of(core) {
        lemma_first_char(core, "["@);
    }
    if "Server"@.is_prefix_of(core) {
        lemma_first_char(core, "Server"@);
    }
    assert((seq![line] + rest).drop_first() =~= rest);
    assert((seq![Some(content)] + files).drop_first() =~= files);
    assert((seq![None::<Seq<char>>] + files).drop_first() =~= files);
    let mine = before.push(RepositoryModel { name, servers });
    assert(mine.drop_last() =~= before);
}

/// A line in square brackets begins a section: a repository of that name without servers, unless it
/// is the section of options, which is none.
pub proof fn section_line_begins_a_repository(
    front: Seq<char>,
    name: Seq<char>,
    back: Seq<char>,
    rest: Seq<Seq<char>>,
    before: Seq<RepositoryModel>,
    open: bool,
    files: Seq<Option<Seq<char>>>,
    arch: Seq<char>,
)
    requires
        is_blank(front),
        is_blank(back),
    ensures
        ({
            let lines = seq![front + "["@ + name + "]"@ + back] + rest;
            &&& name != "options"@ ==> parse_lines(lines, before, open, files, arch)
                == parse_lines(
                rest,
                before.push(RepositoryModel { name, servers: seq![] }),
                true,
                files,
                arch,
            )
            &&& name == "options"@ ==> parse_lines(lines, before, open, files, arch)
                == parse_lines(rest, before, false, files, arch)
        }),
{
    reveal_strlit("[");
    reveal_strlit("]");
    let line = front + "["@ + name + "]"@ + back;
    let core = "["@ + name + "]"@;
    assert(line =~= front + core + back);
    assert(core[0] == '[' && core.last() == ']');
    trimming_leaves_the_core(front, core, back);
    assert(core.subrange(0, 1) =~= "["@);
    assert(core.subrange(core.len() - 1, core.len() as int) =~= "]"@);
    assert(core.subrange(1, core.len() - 1) =~= name);
    assert((seq![line] + rest).drop_first() =~= rest);
}

/// A line that, white space aside, begins neither a section nor with one of the two words counts
/// for nothing.
pub proof fn unknown_line_counts_for_nothing(
    line: Seq<char>,
    rest: Seq<Seq<char>>,
    before: Seq<RepositoryModel>,
    open: bool,
    files: Seq<Option<Seq<char>>>,
    arch: Seq<char>,
)
    requires
        !"["@.is_prefix_of(trimmed(line)),
        !"Server"@.is_prefix_of(trimmed(line)),
        !"Include"@.is_prefix_of(trimmed(line)),
    ensures
        parse_lines(seq![line] + rest, before, open, files, arch) == parse_lines(
            rest,
            before,
            open,
            files,
            arch,
        ),
{
    assert((seq![line] + rest).drop_first() =~= rest);
}

/// The servers of an included file are those of its lines, one after another: of a line that names
/// a server the address, with the name of the repository and the machine architecture put in, and
/// of a comment or a line that does not begin with the word nothing.
pub proof fn mirrors_are_the_servers_of_the_lines(
    first: Seq<Seq<char>>,
    second: Seq<Seq<char>>,
    front: Seq<char>,
    gap: Seq<char>,
    left: Seq<char>,
    value: Seq<char>,
    right: Seq<char>,
    other: Seq<char>,
    name: Seq<char>,
    arch: Seq<char>,
)
    requires
        is_blank(front),
        is_blank(gap),
        is_blank(left),
        is_blank(right),
        is_tight(value),
    ensures
        mirrors(first + second, name, arch) == mirrors(first, name, arch) + mirrors(
            second,
            name,
            arch,
        ),
        mirrors(seq![front + "Server"@ + gap + "="@ + left + value + right], name, arch) == seq![
            replaced(replaced(value, "$repo"@, name), "$arch"@, arch),
        ],
        !"Server"@.is_prefix_of(trimmed(other)) || "#"@.is_prefix_of(trimmed(other)) ==> mirrors(
            seq![other],
            name,
            arch,
        ) == Seq::<Seq<char>>::empty(),
        mirrors(Seq::empty(), name, arch) == Seq::<Seq<char>>::empty(),
    decreases first.len(),
{
    reveal_strlit("Server");
    reveal_strlit("#");
    if first.len() == 0 {
        assert(first + second =~= second);
        assert(mirrors(first, name, arch) + mirrors(second, name, arch) =~= mirrors(
            second,
            name,
            arch,
        ));
    } else {
        let rest = first.drop_first();
        assert((first + second)[0] == first[0]);
        assert((first + second).drop_first() =~= rest + second);
        mirrors_are_the_servers_of_the_lines(
            rest,
            second,
            front,
            gap,
            left,
            value,
            right,
            other,
            name,
            arch,
        );
        assert(mirrors(first + second, name, arch) =~= mirrors(first, name, arch) + mirrors(
            second,
            name,
            arch,
        ));
    }
    let line = front + "Server"@ + gap + "="@ + left + value + right;
    lemma_setting_of_line(front, "Server"@, gap, left, value, right);
    lemma_first_char(trimmed(line), "Server"@);
    if "#"@.is_prefix_of(trimmed(line)) {
        lemma_first_char(trimmed(line), "#"@);
    }
    let none = Seq::<Seq<char>>::empty();
    assert(mirrors(none, name, arch) =~= none);
    assert(seq![line].drop_first() =~= none);
    assert(seq![other].drop_first() =~= none);
    assert(seq![line][0] == line);
    assert(seq![other][0] == other);
    assert(mirrors(seq![line], name, arch) =~= seq![
        replaced(replaced(value, "$repo"@, name), "$arch"@, arch),
    ]);
    assert(!"Server"@.is_prefix_of(trimmed(other)) || "#"@.is_prefix_of(trimmed(other)) ==> mirrors(
        seq![other],
        name,
        arch,
    ) =~= Seq::<Seq<char>>::empty());
}

/// Two sections that include the same list of mirrors get the mirrors each for its own name.
pub proof fn sections_get_their_own_mirrors(
    a: Seq<char>,
    b: Seq<char>,
    gap: Seq<char>,
    path: Seq<char>,
    value: Seq<char>,
    content: Seq<char>,
    arch: Seq<char>,
)
    requires
        a != "options"@,
        b != "options"@,
        is_blank(gap),
        is_tight(path),
        is_tight(value),
        lines_of(content) == seq!["Server"@ + gap + "="@ + gap + value],
    ensures
        parse_lines(
            seq![
                "["@ + a + "]"@,
                "Include"@ + gap + "="@ + gap + path,
                "["@ + b + "]"@,
                "Include"@ + gap + "="@ + gap + path,
            ],
            seq![],
            false,
            seq![Some(content), Some(content)],
            arch,
        ) == Parsed::Repositories(
            seq![
                RepositoryModel {
                    name: a,
                    servers: seq![replaced(replaced(value, "$repo"@, a), "$arch"@, arch)],
                },
                RepositoryModel {
                    name: b,
                    servers: seq![replaced(replaced(value, "$repo"@, b), "$arch"@, arch)],
                },
            ],
        ),
{
    let none = Seq::<char>::empty();
    let no_lines = Seq::<Seq<char>>::empty();
    let begin_a = "["@ + a + "]"@;
    let begin_b = "["@ + b + "]"@;
    let inclusion = "Include"@ + gap + "="@ + gap + path;
    let server = "Server"@ + gap + "="@ + gap + value;
    let address_a = replaced(replaced(value, "$repo"@, a), "$arch"@, arch);
    let address_b = replaced(replaced(value, "$repo"@, b), "$arch"@, arch);
    let all = seq![begin_a, inclusion, begin_b, inclusion];
    let from_1 = seq![inclusion, begin_b, inclusion];
    let from_2 = seq![begin_b, inclusion];
    let from_3 = seq![inclusion];
    let files = seq![Some(content), Some(content)];
    assert(none + "["@ + a + "]"@ + none =~= begin_a);
    assert(none + "["@ + b + "]"@ + none =~= begin_b);
    assert(none + "Include"@ + gap + "="@ + gap + path + none =~= inclusion);
    assert(none + "Server"@ + gap + "="@ + gap + value + none =~= server);
    assert(all =~= seq![begin_a] + from_1);
    assert(from_1 =~= seq![inclusion] + from_2);
    assert(from_2 =~= seq![begin_b] + from_3);
    assert(from_3 =~= seq![inclusion] + no_lines);
    assert(files =~= seq![Some(content)] + seq![Some(content)]);
    assert(seq![Some(content)] =~= seq![Some(content)] + Seq::<Option<Seq<char>>>::empty());
    let start = Seq::<RepositoryModel>::empty();
    mirrors_are_the_servers_of_the_lines(
        no_lines,
        no_lines,
        none,
        gap,
        gap,
        value,
        none,
        none,
        a,
        arch,
    );
    mirrors_are_the_servers_of_the_lines(
        no_lines,
        no_lines,
        none,
        gap,
        gap,
        value,
        none,
        none,
        b,
        arch,
    );
    section_line_begins_a_repository(none, a, none, from_1, start, false, files, arch);
    include_line_adds_the_servers_of_its_file(
        none,
        gap,
        gap,
        path,
        none,
        from_2,
        start,
        a,
        seq![],
        content,
        seq![Some(content)],
        arch,
    );
    let first = RepositoryModel { name: a, servers: seq![address_a] };
    assert(Seq::<Seq<char>>::empty() + seq![address_a] =~= seq![address_a]);
    let one = start.push(first);
    section_line_begins_a_repository(
        none,
        b,
        none,
        from_3,
        one,
        true,
        seq![Some(content)],
        arch,
    );
    include_line_adds_the_servers_of_its_file(
        none,
        gap,
        gap,
        path,
        none,
        no_lines,
        one,
        b,
        seq![],
        content,
        seq![],
        arch,
    );
    let second = RepositoryModel { name: b, servers: seq![address_b] };
    assert(Seq::<Seq<char>>::empty() + seq![address_b] =~= seq![address_b]);
    assert(one.push(second) =~= seq![first, second]);
}

/// Every repository that was registered counts once, and no other counts.
pub proof fn registered_repositories_are_counted(first: Seq<bool>, second: Seq<bool>)
    ensures
        count_registered(first + second) == count_registered(first) + count_registered(second),
        count_registered(seq![true]) == 1,
        count_registered(seq![false]) == 0,
        count_registered(Seq::empty()) == 0,
    decreases second.len(),
{
    reveal_with_fuel(count_registered, 2);
    if second.len() == 0 {
        assert(first + second =~= first);
    } else {
        assert((first + second).drop_last() =~= first + second.drop_last());
        assert((first + second).last() == second.last());
        registered_repositories_are_counted(first, second.drop_last());
    }
}

/// A configuration is read line by line, from before the first section on, and at its end the
/// repositories are those that were found.
pub proof fn configuration_is_its_lines(
    conf: Seq<char>,
    found: Seq<RepositoryModel>,
    open: bool,
    files: Seq<Option<Seq<char>>>,
    arch: Seq<char>,
)
    ensures
        parse_conf(conf, files, arch) == parse_lines(
            lines_of(conf),
            Seq::<RepositoryModel>::empty(),
            false,
            files,
            arch,
        ),
        parse_conf(Seq::empty(), files, arch) == Parsed::Repositories(
            Seq::<RepositoryModel>::empty(),
        ),
        parse_lines(Seq::empty(), found, open, files, arch) == Parsed::Repositories(found),
{
    assert(lines_of(Seq::<char>::empty()) =~= Seq::<Seq<char>>::empty());
}

/// The texts of repositories are those of their fields, and the texts of included files are those
/// of the files, each in its place.
pub proof fn repository_texts_are_their_fields(
    repositories: Seq<Repository>,
    files: Seq<Option<String>>,
    i: int,
)
    ensures
        repository_models(repositories).len() == repositories.len(),
        0 <= i < repositories.len() ==> repository_models(repositories)[i].name
            == repositories[i].name@ && repository_models(repositories)[i].servers == texts(
            repositories[i].servers@,
        ),
        file_texts(files).len() == files.len(),
        0 <= i < files.len() && files[i] is Some ==> file_texts(files)[i] == Some(files[i]->0@),
        0 <= i < files.len() && files[i] is None ==> file_texts(files)[i] is None,
{
}

proof fn lemma_setting_has_a_sign(line: Seq<char>, key: Seq<char>)
    requires
        setting(line, key) is Some,
    ensures
        exists|gap: Seq<char>, value: Seq<char>|
            is_blank(gap) && line == #[trigger] (key + gap + "="@ + value),
{
    let rest = after_prefix(line, key)->0;
    let signed = trimmed_start(rest);
    let value = after_prefix(signed, "="@)->0;
    let gap = lemma_blank_before(rest);
    assert(line =~= key + rest);
    assert(signed =~= "="@ + value);
    assert(line =~= key + gap + "="@ + value);
}

proof fn lemma_blank_before(s: Seq<char>) -> (gap: Seq<char>)
    ensures
        is_blank(gap),
        s == gap + trimmed_start(s),
    decreases s.len(),
{
    if s.len() == 0 || !white_space(s[0]) {
        assert(s =~= Seq::<char>::empty() + trimmed_start(s));
        Seq::empty()
    } else {
        let shorter = lemma_blank_before(s.drop_first());
        let gap = seq![s[0]] + shorter;
        assert forall|i: int| 0 <= i < gap.len() implies white_space(#[trigger] gap[i]) by {
            if i > 0 {
                assert(gap[i] == shorter[i - 1]);
            }
        }
        assert(trimmed_start(s) == trimmed_start(s.drop_first()));
        assert(s =~= seq![s[0]] + s.drop_first());
        assert(s =~= gap + trimmed_start(s));
        gap
    }
}

/// A line counts for nothing unless, white space around it aside, it stands in square brackets or
/// is one of the two words, an equals sign with nothing but white space before it, and a value.
pub proof fn unfinished_line_counts_for_nothing(
    line: Seq<char>,
    rest: Seq<Seq<char>>,
    before: Seq<RepositoryModel>,
    open: bool,
    name: Seq<char>,
    files: Seq<Option<Seq<char>>>,
    arch: Seq<char>,
)
    requires
        !("["@.is_prefix_of(trimmed(line)) && "]"@.is_suffix_of(trimmed(line))),
        forall|gap: Seq<char>, value: Seq<char>|
            is_blank(gap) ==> trimmed(line) != #[trigger] ("Server"@ + gap + "="@ + value),
        forall|gap: Seq<char>, value: Seq<char>|
            is_blank(gap) ==> trimmed(line) != #[trigger] ("Include"@ + gap + "="@ + value),
    ensures
        parse_lines(seq![line] + rest, before, open, files, arch) == parse_lines(
            rest,
            before,
            open,
            files,
            arch,
        ),
        mirrors(seq![line], name, arch) == Seq::<Seq<char>>::empty(),
{
    let core = trimmed(line);
    if setting(core, "Server"@) is Some {
        lemma_setting_has_a_sign(core, "Server"@);
    }
    if setting(core, "Include"@) is Some {
        lemma_setting_has_a_sign(core, "Include"@);
    }
    assert((seq![line] + rest).drop_first() =~= rest);
    let none = Seq::<Seq<char>>::empty();
    assert(mirrors(none, name, arch) =~= none);
    assert(seq![line].drop_first() =~= none);
    assert(mirrors(seq![line], name, arch) =~= none);
}

} // verus!

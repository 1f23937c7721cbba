//! The commands of the program and the package sources that they name.

use crate::text::same;
use vstd::prelude::*;

verus! {

/// Where packages come from.
#[derive(Clone, Copy, Debug, PartialEq, Eq, Structural)]
pub enum Source {
    /// Arch repositories only.
    Arch,
    /// AUR only (requires yay or paru).
    Aur,
    /// Arch repositories first, the AUR where they lack a package.
    Auto,
}

/// The name of a source.
pub open spec fn source_name(source: Source) -> Seq<char> {
    match source {
        Source::Arch => "arch"@,
        Source::Aur => "aur"@,
        Source::Auto => "auto"@,
    }
}

impl Source {
    /// The name of the source, as it is written on the command line.
    pub fn as_str(self) -> (r: &'static str)
        ensures
            r@ == source_name(self),
    {
        match self {
            Source::Arch => "arch",
            Source::Aur => "aur",
            Source::Auto => "auto",
        }
    }
}

/// Whether packages of a repository may be used for a source. Every repository is one of Arch, so
/// only the AUR source leaves them out.
pub fn repo_matches_source(_repo_name: &str, source: Source) -> (r: bool)
    ensures
        r == (source != Source::Aur),
{
    source != Source::Aur
}

/// What the user asks the program to do.
#[derive(Debug)]
pub enum Commands {
    /// Install packages by name, or one package file.
    Install { packages: Vec<String>, local: Option<String>, source: Source },
    /// Refresh the package databases.
    Update { source: Source },
    /// Upgrade the installed packages.
    Upgrade { source: Source },
    /// Search the repositories, or the AUR.
    Search { query: String, source: Source },
    /// Show what is known of a package.
    Info { package: String, source: Source },
    /// Remove packages.
    Uninstall { packages: Vec<String>, source: Source },
    /// List the installed packages.
    List { source: Source },
    /// Run diagnostics.
    Doctor,
    /// Remove the build cache.
    Clean,
}

/// Whether a command as a whole has to run as root. Installing does not: it enters the root
/// environment for the step that needs it.
pub open spec fn needs_root(command: Commands) -> bool {
    command is Update || command is Upgrade || command is Uninstall
}

/// Whether a command as a whole has to run as root.
pub fn command_needs_root(command: &Commands) -> (r: bool)
    ensures
        r == needs_root(*command),
{
    match command {
        Commands::Update { .. } => true,
        Commands::Upgrade { .. } => true,
        Commands::Uninstall { .. } => true,
        _ => false,
    }
}

/// An argument of the command line, with `-v` read as `-V`.
pub open spec fn read_argument(argument: Seq<char>) -> Seq<char> {
    if argument == "-v"@ {
        "-V"@
    } else {
        argument
    }
}

/// The arguments of the command line, with `-v` accepted for `-V`.
pub fn accept_version_alias(args: &Vec<String>) -> (r: Vec<String>)
    ensures
        r@.len() == args@.len(),
        forall|i: int| 0 <= i < args@.len() ==> (#[trigger] r@[i])@ == read_argument(args@[i]@),
{
    let mut r: Vec<String> = Vec::new();
    let mut i: usize = 0;
    while i < args.len()
        invariant
            i <= args@.len(),
            r@.len() == i,
            forall|j: int| 0 <= j < i ==> (#[trigger] r@[j])@ == read_argument(args@[j]@),
        decreases args@.len() - i,
    {
        if same(args[i].as_str(), "-v") {
            r.push(String::from_str("-V"));
        } else {
            r.push(args[i].clone());
        }
        i += 1;
    }
    r
}

/// Each source has a name of its own.
pub proof fn sources_are_told_apart(a: Source, b: Source)
    ensures
        source_name(a) == source_name(b) ==> a == b,
        source_name(Source::Arch) == "arch"@,
        source_name(Source::Aur) == "aur"@,
        source_name(Source::Auto) == "auto"@,
{
    reveal_strlit("arch");
    reveal_strlit("aur");
    reveal_strlit("auto");
    assert("arch"@.len() == 4 && "aur"@.len() == 3 && "auto"@.len() == 4);
    assert("arch"@[1] == 'r' && "auto"@[1] == 'u');
}

/// Of the command line only the one short option is read differently, as the version option.
pub proof fn only_the_version_option_is_read_differently(argument: Seq<char>)
    ensures
        argument != "-v"@ ==> read_argument(argument) == argument,
        argument == "-v"@ ==> read_argument(argument) == "-V"@,
        read_argument(read_argument(argument)) == read_argument(argument),
{
}

/// What changes the databases of the system as a whole runs as root, and nothing else does.
pub proof fn only_changing_commands_need_root(command: Commands)
    ensures
        needs_root(command) <==> match command {
            Commands::Update { .. } => true,
            Commands::Upgrade { .. } => true,
            Commands::Uninstall { .. } => true,
            Commands::Install { .. } => false,
            Commands::Search { .. } => false,
            Commands::Info { .. } => false,
            Commands::List { .. } => false,
            Commands::Doctor => false,
            Commands::Clean => false,
        },
{
}

} // verus!

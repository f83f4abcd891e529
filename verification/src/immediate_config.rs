//! The part of the configuration that is read before anything else: the root file of the project,
//! without what it includes.
use vstd::prelude::*;
use vstd::string::*;

use crate::paths::PathView;
use crate::paths::ProjectRelativePathBuf;
use crate::paths;
use crate::proto_times::ProtoTimestamp;
use crate::proto_times::is_in_future;
use crate::proto_times;
use crate::text;

verus! {

/// Why the configuration, or something in it, cannot be had.
#[derive(Debug)]
pub struct ConfigError {
    /// What was being done, from the outermost on, and what failed.
    pub chain: Vec<String>,
}

/// The characters of the chain of an error.
pub open spec fn chain_of(e: ConfigError) -> Seq<Seq<char>> {
    text::views(e.chain@)
}

fn error_of(message: String) -> (r: ConfigError)
    ensures
        chain_of(r) == seq![message@],
{
    let mut chain: Vec<String> = Vec::new();
    chain.push(message);
    assert(text::views(chain@) =~= seq![message@]);
    ConfigError { chain }
}

fn in_context(context: &str, message: String) -> (r: ConfigError)
    ensures
        chain_of(r) == seq![context@, message@],
{
    let mut chain: Vec<String> = Vec::new();
    chain.push(context.to_owned());
    chain.push(message);
    assert(text::views(chain@) =~= seq![context@, message@]);
    ConfigError { chain }
}

/// An error with one more context around it.
fn wrap(context: &str, e: ConfigError) -> (r: ConfigError)
    ensures
        chain_of(r) == seq![context@] + chain_of(e),
{
    let mut chain: Vec<String> = Vec::new();
    chain.push(context.to_owned());
    let mut i: usize = 0;
    assert(text::views(chain@) =~= seq![context@] + text::views(e.chain@).take(0));
    while i < e.chain.len()
        invariant
            i <= e.chain@.len(),
            text::views(chain@) == seq![context@] + text::views(e.chain@).take(i as int),
        decreases e.chain@.len() - i,
    {
        let ghost before = text::views(chain@);
        chain.push(e.chain[i].clone());
        proof {
            let all = text::views(e.chain@);
            assert(text::views(chain@) =~= before.push(all[i as int]));
            assert(all.take(i + 1) =~= all.take(i as int).push(all[i as int]));
        }
        i = i + 1;
    }
    assert(text::views(e.chain@).take(e.chain@.len() as int) =~= text::views(e.chain@));
    ConfigError { chain }
}

/// What the daemon is told when it starts.
#[derive(Debug)]
pub struct DaemonStartupConfig {
    /// What the file says, as it is shown.
    pub text: String,
    pub paranoid: bool,
}

/// The cells of a project by name, with their paths, and the names they go by in one of them.
#[derive(Debug)]
pub struct Cells {
    pub cells: Vec<(String, ProjectRelativePathBuf)>,
    pub aliases: Vec<(String, String)>,
}

/// What was read of the configuration. Each step is there only if those before it succeeded.
pub struct ConfigOutcomes {
    /// The cells of the project, without aliases.
    pub cells: Result<Vec<(String, ProjectRelativePathBuf)>, String>,
    /// The aliases of the cells in the working directory.
    pub aliases: Result<Vec<(String, String)>, String>,
    /// What the root cell's file says to the daemon, if there is such a file.
    pub startup: Option<Result<DaemonStartupConfig, String>>,
}

/// The configuration, or what is wrong with it.
pub struct ImmediateConfig {
    pub cells: Cells,
    pub daemon_startup_config: DaemonStartupConfig,
}

/// Where things went wrong.
pub open spec fn config_error_chain(o: ConfigOutcomes) -> Option<Seq<Seq<char>>> {
    match (o.cells, o.aliases, o.startup) {
        (Err(e), _, _) => Some(seq![e@]),
        (_, Err(e), _) => Some(seq![e@]),
        (_, _, None) => Some(seq!["No config for root cell"@]),
        (_, _, Some(Err(e))) => Some(seq!["Error loading daemon startup config"@, e@]),
        _ => None,
    }
}

impl ImmediateConfig {
    /// Puts together what was read of the root file.
    pub fn parse(outcomes: ConfigOutcomes) -> (r: Result<ImmediateConfig, ConfigError>)
        ensures
            match (config_error_chain(outcomes), r) {
                (Some(chain), Err(e)) => chain_of(e) == chain,
                (None, Ok(c)) => {
                    &&& c.cells.cells == outcomes.cells->Ok_0
                    &&& c.cells.aliases == outcomes.aliases->Ok_0
                    &&& c.daemon_startup_config == outcomes.startup->0->Ok_0
                },
                _ => false,
            },
    {
        let cells = match outcomes.cells {
            Ok(c) => c,
            Err(e) => {
                return Err(error_of(e));
            },
        };
        let aliases = match outcomes.aliases {
            Ok(a) => a,
            Err(e) => {
                return Err(error_of(e));
            },
        };
        match outcomes.startup {
            None => Err(error_of("No config for root cell".to_owned())),
            Some(Err(e)) => Err(in_context("Error loading daemon startup config", e)),
            Some(Ok(daemon_startup_config)) => Ok(
                ImmediateConfig { cells: Cells { cells, aliases }, daemon_startup_config },
            ),
        }
    }
}

/// What is kept of the configuration.
pub struct ImmediateConfigContextData {
    pub cells: Cells,
    pub daemon_startup_config: DaemonStartupConfig,
    pub project_root: String,
}

/// What was found out about the project.
pub struct ProjectOutcomes {
    /// The root of the project, or why it was not found. To find it is to find the path of the
    /// switch for caution, and the working directory in the project, too.
    pub project_root: Result<String, String>,
    pub config: ConfigOutcomes,
    /// Whether caution is switched on, or why that is not known.
    pub paranoid: Result<bool, String>,
}

/// The configuration as it becomes known, and the files that were looked at.
pub struct ImmediateConfigContext {
    pub data: Option<ImmediateConfigContextData>,
    pub trace: Vec<String>,
}

/// The error of a project, within what was being done.
pub open spec fn project_error_chain(o: ProjectOutcomes) -> Option<Seq<Seq<char>>> {
    match (o.project_root, config_error_chain(o.config)) {
        (Err(e), _) => Some(seq!["Error creating cell resolver"@, e@]),
        (Ok(_), Some(chain)) => Some(seq!["Error creating cell resolver"@] + chain),
        (Ok(_), None) => None,
    }
}

/// What is kept of a project without errors. Where it is not known whether caution is switched on,
/// the file decides.
pub open spec fn data_of(o: ProjectOutcomes) -> ImmediateConfigContextData {
    let startup = o.config.startup->0->Ok_0;
    ImmediateConfigContextData {
        cells: Cells { cells: o.config.cells->Ok_0, aliases: o.config.aliases->Ok_0 },
        daemon_startup_config: DaemonStartupConfig {
            text: startup.text,
            paranoid: match o.paranoid {
                Ok(p) => p,
                Err(_) => startup.paranoid,
            },
        },
        project_root: o.project_root->Ok_0,
    }
}

impl ImmediateConfigContext {
    pub fn new() -> (r: Self)
        ensures
            r.data is None,
            r.trace@.len() == 0,
    {
        ImmediateConfigContext { data: None, trace: Vec::new() }
    }

    pub fn push_trace(&mut self, path: String)
        ensures
            final(self).trace@ == old(self).trace@.push(path),
            final(self).data == old(self).data,
    {
        self.trace.push(path);
    }

    pub fn trace(&self) -> (r: &Vec<String>)
        ensures
            *r == self.trace,
    {
        &self.trace
    }

    /// The configuration: what is known, or else what `outcomes` say, which is then kept. After an
    /// error nothing is kept, so that the next call can try again.
    pub fn data(&mut self, outcomes: ProjectOutcomes) -> (r: Result<(), ConfigError>)
        ensures
            final(self).trace == old(self).trace,
            match old(self).data {
                Some(_) => r is Ok && final(self).data == old(self).data,
                None => match (project_error_chain(outcomes), r) {
                    (Some(chain), Err(e)) => chain_of(e) == chain && final(self).data is None,
                    (None, Ok(_)) => final(self).data == Some(data_of(outcomes)),
                    _ => false,
                },
            },
    {
        if self.data.is_some() {
            return Ok(());
        }
        let project_root = match outcomes.project_root {
            Ok(p) => p,
            Err(e) => {
                return Err(in_context("Error creating cell resolver", e));
            },
        };
        let config = match ImmediateConfig::parse(outcomes.config) {
            Ok(c) => c,
            Err(e) => {
                return Err(wrap("Error creating cell resolver", e));
            },
        };
        let mut daemon_startup_config = config.daemon_startup_config;
        match outcomes.paranoid {
            Ok(p) => {
                daemon_startup_config.paranoid = p;
            },
            Err(_) => {},
        }
        self.data = Some(
            ImmediateConfigContextData {
                cells: config.cells,
                daemon_startup_config,
                project_root,
            },
        );
        Ok(())
    }

    /// What the daemon is told when it starts, once the configuration is known.
    pub fn daemon_startup_config(&self) -> (r: Option<&DaemonStartupConfig>)
        ensures
            r == (match self.data {
                Some(d) => Some(&d.daemon_startup_config),
                None => None,
            }),
    {
        match &self.data {
            Some(d) => Some(&d.daemon_startup_config),
            None => None,
        }
    }
}

/// Why it is not known whether caution is switched on.
#[derive(Clone, Copy, Debug, PartialEq, Eq, Structural)]
pub enum ParanoidError {
    /// The variable says neither yes nor no.
    Variable,
    Unreadable,
    InvalidData,
    MissingExpiresAt,
    InvalidExpiresAt,
}

/// What the file says: until when caution is switched on.
pub enum ParanoidFile {
    NoFile,
    Unreadable,
    Invalid,
    Info { expires_at: Option<ProtoTimestamp> },
}

/// Whether caution is switched on: by the variable, or else by a file, for a time.
pub fn is_paranoid_enabled(
    variable: Result<Option<bool>, ()>,
    file: ParanoidFile,
    now_nanos: i128,
) -> (r: Result<bool, ParanoidError>)
    ensures
        match (variable, file) {
            (Err(_), _) => r == Err::<bool, ParanoidError>(ParanoidError::Variable),
            (Ok(Some(p)), _) => r == Ok::<bool, ParanoidError>(p),
            (Ok(None), ParanoidFile::NoFile) => r == Ok::<bool, ParanoidError>(false),
            (Ok(None), ParanoidFile::Unreadable) => r == Err::<bool, ParanoidError>(
                ParanoidError::Unreadable,
            ),
            (Ok(None), ParanoidFile::Invalid) => r == Err::<bool, ParanoidError>(
                ParanoidError::InvalidData,
            ),
            (Ok(None), ParanoidFile::Info { expires_at: None }) => r == Err::<bool, ParanoidError>(
                ParanoidError::MissingExpiresAt,
            ),
            (Ok(None), ParanoidFile::Info { expires_at: Some(t) }) => match r {
                Ok(b) => proto_times::is_within_range(t) ==> {
                    &&& b ==> now_nanos < proto_times::exact_nanos(t)
                    &&& !b ==> proto_times::exact_nanos(t) < now_nanos + 1_000_000_000
                },
                Err(e) => e == ParanoidError::InvalidExpiresAt,
            },
        },
{
    match variable {
        Err(_) => Err(ParanoidError::Variable),
        Ok(Some(p)) => Ok(p),
        Ok(None) => match file {
            ParanoidFile::NoFile => Ok(false),
            ParanoidFile::Unreadable => Err(ParanoidError::Unreadable),
            ParanoidFile::Invalid => Err(ParanoidError::InvalidData),
            ParanoidFile::Info { expires_at } => match expires_at {
                None => Err(ParanoidError::MissingExpiresAt),
                Some(t) => match is_in_future(&t, now_nanos) {
                    Some(b) => Ok(b),
                    None => Err(ParanoidError::InvalidExpiresAt),
                },
            },
        },
    }
}

/// `base` followed by one name. The names that stand for the same directory and for the one above
/// are not kept; there is nothing above the root.
pub open spec fn stepped(base: PathView, name: Seq<char>) -> Option<PathView> {
    if name.len() == 0 || name == "."@ {
        Some(base)
    } else if name == ".."@ {
        if base.len() == 0 {
            None
        } else {
            Some(base.drop_last())
        }
    } else {
        Some(base.push(name))
    }
}

/// `base` followed by the names in `rest`, of which the first begins with `name`.
pub open spec fn walked(base: PathView, name: Seq<char>, rest: Seq<char>) -> Option<PathView>
    decreases rest.len(),
{
    if rest.len() == 0 {
        stepped(base, name)
    } else if rest[0] == '/' {
        match stepped(base, name) {
            Some(b) => walked(b, Seq::empty(), rest.subrange(1, rest.len() as int)),
            None => None,
        }
    } else {
        walked(base, name.push(rest[0]), rest.subrange(1, rest.len() as int))
    }
}

/// Adds one name to a path; false where that would lead above the root.
fn step_into(path: &mut ProjectRelativePathBuf, name: String) -> (r: bool)
    ensures
        match stepped(old(path)@, name@) {
            Some(p) => r && final(path)@ == p,
            None => !r,
        },
{
    let ghost before = path@;
    if name.as_str().unicode_len() == 0 || text::str_eq(name.as_str(), ".") {
        true
    } else if text::str_eq(name.as_str(), "..") {
        if path.parts.len() == 0 {
            false
        } else {
            path.parts.pop();
            assert(path@ =~= before.drop_last());
            true
        }
    } else {
        path.parts.push(name);
        assert(path@ =~= before.push(name@));
        true
    }
}

/// `base` followed by a path that may lead up again, but not above the root.
pub fn join_normalized(base: &ProjectRelativePathBuf, relative: &str) -> (r: Option<
    ProjectRelativePathBuf,
>)
    ensures
        match (r, walked(base@, Seq::empty(), relative@)) {
            (Some(p), Some(v)) => p@ == v,
            (None, None) => true,
            _ => false,
        },
{
    let mut path = base.clone();
    let mut name = String::new();
    let n: usize = relative.unicode_len();
    let mut i: usize = 0;
    proof {
        assert(relative@.subrange(0, relative@.len() as int) =~= relative@);
        assert(name@ =~= Seq::empty());
    }
    while i < n
        invariant
            n == relative@.len(),
            i <= n,
            walked(base@, Seq::empty(), relative@) == walked(
                path@,
                name@,
                relative@.subrange(i as int, n as int),
            ),
        decreases n - i,
    {
        let ghost rest = relative@.subrange(i as int, n as int);
        proof {
            assert(rest.subrange(1, rest.len() as int) =~= relative@.subrange(i + 1, n as int));
        }
        if relative.get_char(i) == '/' {
            let mut done = String::new();
            std::mem::swap(&mut done, &mut name);
            assert(name@ =~= Seq::empty());
            if !step_into(&mut path, done) {
                return None;
            }
        } else {
            let ghost before = name@;
            let c = relative.substring_char(i, i + 1);
            name.append(c);
            assert(name@ =~= before.push(rest[0]));
        }
        i = i + 1;
    }
    assert(relative@.subrange(n as int, n as int) =~= Seq::empty());
    if step_into(&mut path, name) {
        Some(path)
    } else {
        None
    }
}

/// Why a path in a cell cannot be found.
#[derive(Debug)]
pub enum CellPathError {
    UnknownAlias(String),
    UnknownCell(String),
    /// The path leads out of the project.
    OutsideProject(String),
}

/// Entry number `i` is the first called `name`.
pub open spec fn entry_at<T>(entries: Seq<(String, T)>, name: Seq<char>, i: int) -> bool {
    &&& 0 <= i < entries.len()
    &&& entries[i].0@ == name
    &&& forall|k: int| 0 <= k < i ==> (#[trigger] entries[k]).0@ != name
}

/// Some entry is called `name`.
pub open spec fn has_entry<T>(entries: Seq<(String, T)>, name: Seq<char>) -> bool {
    exists|i: int| entry_at(entries, name, i)
}

/// The first entry called `name`.
pub open spec fn entry_index<T>(entries: Seq<(String, T)>, name: Seq<char>) -> int {
    choose|i: int| entry_at(entries, name, i)
}

fn position_of<T>(entries: &Vec<(String, T)>, name: &str) -> (r: Option<usize>)
    ensures
        match r {
            Some(i) => has_entry(entries@, name@) && i == entry_index(entries@, name@) && i
                < entries@.len(),
            None => !has_entry(entries@, name@),
        },
{
    let mut i: usize = 0;
    while i < entries.len()
        invariant
            i <= entries@.len(),
            forall|k: int| 0 <= k < i ==> (#[trigger] entries@[k]).0@ != name@,
        decreases entries@.len() - i,
    {
        if text::str_eq(entries[i].0.as_str(), name) {
            proof {
                assert(entry_at(entries@, name@, i as int));
                let j = entry_index(entries@, name@);
                assert(entry_at(entries@, name@, j));
                if j < i {
                    assert(entries@[j].0@ != name@);
                }
                if i < j {
                    assert(entries@[i as int].0@ != name@);
                }
            }
            return Some(i);
        }
        i = i + 1;
    }
    None
}

/// A path in the project, as an absolute path.
pub open spec fn absolute_text(root: Seq<char>, path: PathView) -> Seq<char> {
    if path.len() == 0 {
        root
    } else if root.len() == 0 || root.last() == '/' {
        root + paths::path_text(path)
    } else {
        root + "/"@ + paths::path_text(path)
    }
}

/// The absolute path of `relative` in the cell that goes by `alias`.
pub open spec fn cell_path_outcome(
    data: ImmediateConfigContextData,
    alias: String,
    relative: String,
) -> Result<Seq<char>, CellPathError> {
    if !has_entry(data.cells.aliases@, alias@) {
        Err(CellPathError::UnknownAlias(alias))
    } else {
        let cell = data.cells.aliases@[entry_index(data.cells.aliases@, alias@)].1;
        if !has_entry(data.cells.cells@, cell@) {
            Err(CellPathError::UnknownCell(cell))
        } else {
            let base = data.cells.cells@[entry_index(data.cells.cells@, cell@)].1;
            match walked(base@, Seq::empty(), relative@) {
                Some(path) => Ok(absolute_text(data.project_root@, path)),
                None => Err(CellPathError::OutsideProject(relative)),
            }
        }
    }
}

impl ImmediateConfigContextData {
    /// The absolute path of `cell_relative_path` in the cell that goes by `cell_alias`. For
    /// `cell//path/to/file` these are `path/to/file` and `cell`.
    pub fn resolve_cell_path(&self, cell_alias: &String, cell_relative_path: &String) -> (r: Result<
        String,
        CellPathError,
    >)
        ensures
            match (r, cell_path_outcome(*self, *cell_alias, *cell_relative_path)) {
                (Ok(s), Ok(v)) => s@ == v,
                (Err(e), Err(f)) => e == f,
                _ => false,
            },
    {
        let i = match position_of(&self.cells.aliases, cell_alias.as_str()) {
            Some(i) => i,
            None => {
                return Err(CellPathError::UnknownAlias(cell_alias.clone()));
            },
        };
        let cell = &self.cells.aliases[i].1;
        let j = match position_of(&self.cells.cells, cell.as_str()) {
            Some(j) => j,
            None => {
                return Err(CellPathError::UnknownCell(cell.clone()));
            },
        };
        match join_normalized(&self.cells.cells[j].1, cell_relative_path.as_str()) {
            Some(path) => if path.depth() == 0 {
                Ok(self.project_root.clone())
            } else {
                let shown = path.display();
                let root = self.project_root.as_str();
                let n: usize = root.unicode_len();
                if n == 0 || root.get_char(n - 1) == '/' {
                    Ok(text::concat2(root, shown.as_str()))
                } else {
                    Ok(text::concat3(root, "/", shown.as_str()))
                }
            },
            None => Err(CellPathError::OutsideProject(cell_relative_path.clone())),
        }
    }
}

/// The first thing that goes wrong with a configuration is what is reported, and nothing is if
/// nothing does.
pub proof fn law_what_is_wrong_with_a_config(o: ConfigOutcomes)
    ensures
        o.cells is Err ==> config_error_chain(o) == Some(seq![o.cells->Err_0@]),
        o.cells is Ok && o.aliases is Err ==> config_error_chain(o) == Some(
            seq![o.aliases->Err_0@],
        ),
        o.cells is Ok && o.aliases is Ok && o.startup is None ==> config_error_chain(o) == Some(
            seq!["No config for root cell"@],
        ),
        o.cells is Ok && o.aliases is Ok && o.startup is Some && o.startup->0 is Err
            ==> config_error_chain(o) == Some(
            seq!["Error loading daemon startup config"@, o.startup->0->Err_0@],
        ),
        config_error_chain(o) is None <==> o.cells is Ok && o.aliases is Ok && o.startup is Some
            && o.startup->0 is Ok,
{
}

/// What goes wrong with a project is reported as a failure to resolve cells.
pub proof fn law_what_is_wrong_with_a_project(o: ProjectOutcomes)
    ensures
        o.project_root is Err ==> project_error_chain(o) == Some(
            seq!["Error creating cell resolver"@, o.project_root->Err_0@],
        ),
        o.project_root is Ok && config_error_chain(o.config) is Some ==> project_error_chain(o)
            == Some(seq!["Error creating cell resolver"@] + config_error_chain(o.config)->0),
        o.project_root is Ok && config_error_chain(o.config) is None ==> project_error_chain(
            o,
        ) is None,
{
}

/// A project has the cells, aliases and settings that were read; whether it is paranoid is what was
/// found out, or else what the settings say.
pub proof fn law_what_a_project_holds(o: ProjectOutcomes)
    requires
        project_error_chain(o) is None,
    ensures
        data_of(o).cells.cells == o.config.cells->Ok_0,
        data_of(o).cells.aliases == o.config.aliases->Ok_0,
        data_of(o).daemon_startup_config.text == o.config.startup->0->Ok_0.text,
        o.paranoid is Ok ==> data_of(o).daemon_startup_config.paranoid == o.paranoid->Ok_0,
        o.paranoid is Err ==> data_of(o).daemon_startup_config.paranoid
            == o.config.startup->0->Ok_0.paranoid,
        data_of(o).project_root == o.project_root->Ok_0,
{
}

/// What a part of a path does: nothing where it is empty or `.`, a step up where it is `..`, which
/// does not lead out of the project, and otherwise a step down to that name.
pub proof fn law_what_a_part_does(base: PathView, name: Seq<char>)
    ensures
        stepped(base, Seq::empty()) == Some(base),
        stepped(base, seq!['.']) == Some(base),
        stepped(base.push(name), seq!['.', '.']) == Some(base),
        stepped(Seq::<Seq<char>>::empty(), seq!['.', '.']) is None,
        name.len() > 0 && name != seq!['.'] && name != seq!['.', '.'] ==> stepped(base, name)
            == Some(base.push(name)),
{
    reveal_strlit(".");
    reveal_strlit("..");
    assert("."@ =~= seq!['.']);
    assert(".."@ =~= seq!['.', '.']);
    assert(base.push(name).drop_last() =~= base);
}

/// A path is walked part by part, each from where the one before led.
pub proof fn law_path_is_walked_part_by_part(base: PathView, name: Seq<char>, rest: Seq<char>)
    requires
        forall|i: int| 0 <= i < name.len() ==> #[trigger] name[i] != '/',
    ensures
        walked(base, Seq::empty(), name) == stepped(base, name),
        stepped(base, name) is Some ==> walked(base, Seq::empty(), name + seq!['/'] + rest)
            == walked(stepped(base, name)->0, Seq::empty(), rest),
        stepped(base, name) is None ==> walked(
            base,
            Seq::empty(),
            name + seq!['/'] + rest,
        ) is None,
{
    let empty = Seq::<char>::empty();
    lemma_walked_name(base, empty, name, empty);
    lemma_walked_name(base, empty, name, seq!['/'] + rest);
    assert(empty + name =~= name);
    assert(name + empty =~= name);
    assert(name + seq!['/'] + rest =~= name + (seq!['/'] + rest));
    assert((seq!['/'] + rest).subrange(1, (seq!['/'] + rest).len() as int) =~= rest);
}

proof fn lemma_walked_name(base: PathView, before: Seq<char>, name: Seq<char>, rest: Seq<char>)
    requires
        forall|i: int| 0 <= i < name.len() ==> #[trigger] name[i] != '/',
    ensures
        walked(base, before, name + rest) == walked(base, before + name, rest),
    decreases name.len(),
{
    if name.len() > 0 {
        let tail = name.subrange(1, name.len() as int);
        assert forall|i: int| 0 <= i < tail.len() implies #[trigger] tail[i] != '/' by {
            assert(tail[i] == name[i + 1]);
        }
        lemma_walked_name(base, before.push(name[0]), tail, rest);
        assert((name + rest)[0] == name[0]);
        assert((name + rest).subrange(1, (name + rest).len() as int) =~= tail + rest);
        assert(before.push(name[0]) + tail =~= before + name);
    } else {
        assert(name + rest =~= rest);
        assert(before + name =~= before);
    }
}

/// A name is looked up as the first entry that has it.
pub proof fn law_first_entry_counts<T>(entries: Seq<(String, T)>, name: Seq<char>, i: int)
    ensures
        0 <= i < entries.len() && entries[i].0@ == name && (forall|k: int|
            0 <= k < i ==> (#[trigger] entries[k]).0@ != name) ==> has_entry(entries, name)
            && entry_index(entries, name) == i,
        (forall|k: int| 0 <= k < entries.len() ==> (#[trigger] entries[k]).0@ != name)
            ==> !has_entry(entries, name),
{
    if 0 <= i < entries.len() && entries[i].0@ == name && (forall|k: int|
        0 <= k < i ==> (#[trigger] entries[k]).0@ != name) {
        assert(entry_at(entries, name, i));
        let j = entry_index(entries, name);
        assert(entry_at(entries, name, j));
        assert(entries[j].0@ == name);
    }
}

/// A path in a cell is the path from the place of the cell that the alias stands for, below the
/// project.
pub proof fn law_where_a_path_of_a_cell_leads(
    data: ImmediateConfigContextData,
    alias: String,
    relative: String,
    i: int,
    j: int,
)
    requires
        entry_at(data.cells.aliases@, alias@, i),
        entry_at(data.cells.cells@, data.cells.aliases@[i].1@, j),
    ensures
        walked(data.cells.cells@[j].1@, Seq::empty(), relative@) is Some ==> cell_path_outcome(
            data,
            alias,
            relative,
        ) == Ok::<Seq<char>, CellPathError>(
            absolute_text(
                data.project_root@,
                walked(data.cells.cells@[j].1@, Seq::empty(), relative@)->0,
            ),
        ),
        walked(data.cells.cells@[j].1@, Seq::empty(), relative@) is None ==> cell_path_outcome(
            data,
            alias,
            relative,
        ) == Err::<Seq<char>, CellPathError>(CellPathError::OutsideProject(relative)),
{
    law_first_entry_counts(data.cells.aliases@, alias@, i);
    law_first_entry_counts(data.cells.cells@, data.cells.aliases@[i].1@, j);
}

/// An alias that is not there, or stands for a cell that is not there, leads nowhere.
pub proof fn law_unknown_cells_are_reported(
    data: ImmediateConfigContextData,
    alias: String,
    relative: String,
    i: int,
)
    ensures
        (forall|k: int|
            0 <= k < data.cells.aliases@.len() ==> (#[trigger] data.cells.aliases@[k]).0@
                != alias@) ==> cell_path_outcome(data, alias, relative) == Err::<
            Seq<char>,
            CellPathError,
        >(CellPathError::UnknownAlias(alias)),
        entry_at(data.cells.aliases@, alias@, i) && (forall|k: int|
            0 <= k < data.cells.cells@.len() ==> (#[trigger] data.cells.cells@[k]).0@
                != data.cells.aliases@[i].1@) ==> cell_path_outcome(data, alias, relative) == Err::<
            Seq<char>,
            CellPathError,
        >(CellPathError::UnknownCell(data.cells.aliases@[i].1)),
{
    law_first_entry_counts(data.cells.aliases@, alias@, i);
    if entry_at(data.cells.aliases@, alias@, i) {
        law_first_entry_counts(data.cells.cells@, data.cells.aliases@[i].1@, 0);
    }
}

/// A path of the project stands below the root, behind one separator.
pub proof fn law_paths_stand_below_the_root(root: Seq<char>, path: PathView)
    ensures
        absolute_text(root, Seq::empty()) == root,
        path.len() > 0 && root.len() > 0 && root.last() != '/' ==> absolute_text(root, path) == root
            + seq!['/'] + paths::path_text(path),
        path.len() > 0 && root.len() > 0 && root.last() == '/' ==> absolute_text(root, path) == root
            + paths::path_text(path),
{
    reveal_strlit("/");
    assert("/"@ =~= seq!['/']);
}

} // verus!

//! Per-framework translation configuration. The rules themselves are
//! declarative data owned by an outside loader; here a framework's
//! configuration is the raw rule text, and what matters to the pipeline is
//! which frameworks have one at all: a framework without a configuration is
//! silently excluded from translation, while an unreadable configuration is
//! a fatal startup error.

use vstd::prelude::*;
use crate::model::StrMap;

verus! {

/// One framework's translation rules, kept as loaded.
#[derive(Debug)]
pub struct Config {
    pub raw: String,
}

impl View for Config {
    type V = Seq<char>;

    open spec fn view(&self) -> Seq<char> {
        self.raw@
    }
}

impl Config {
    pub fn new(raw: String) -> (r: Config)
        ensures
            r@ == raw@,
    {
        Config { raw }
    }
}

/// The outcome of trying to load one directory's configuration file.
#[derive(Debug)]
pub enum LoadOutcome {
    /// The file was present and parsed.
    Loaded(Config),
    /// There is no configuration file: the framework is not opted in.
    NotFound,
    /// The file exists but could not be read or parsed.
    Failed(String),
}

/// One entry of the scanned source directory: its name, whether it is a
/// directory, and what loading its configuration file yielded.
#[derive(Debug)]
pub struct ConfigSource {
    pub name: String,
    pub is_dir: bool,
    pub outcome: LoadOutcome,
}

/// A fatal configuration failure, naming the offending directory.
#[derive(Debug)]
pub struct ConfigError {
    pub name: String,
    pub message: String,
}

/// A source entry that must abort loading: a directory whose configuration
/// file exists but cannot be used.
pub open spec fn failed_source(s: ConfigSource) -> bool {
    s.is_dir && s.outcome is Failed
}

/// The configuration map the scan describes: each directory with a loaded
/// configuration contributes its name; files and opted-out directories do
/// not. A later entry with the same name would shadow an earlier one.
pub open spec fn configs_of(es: Seq<ConfigSource>) -> Map<Seq<char>, Seq<char>>
    decreases es.len(),
{
    if es.len() == 0 {
        Map::empty()
    } else {
        let m = configs_of(es.drop_last());
        match es.last().outcome {
            LoadOutcome::Loaded(c) => if es.last().is_dir {
                m.insert(es.last().name@, c@)
            } else {
                m
            },
            LoadOutcome::NotFound => m,
            LoadOutcome::Failed(msg) => m,
        }
    }
}

/// Build the configuration map from a directory scan. Succeeds exactly when
/// no directory's configuration file failed to load; otherwise reports the
/// first failure, naming the directory and the loader's message.
pub fn load_configs(entries: Vec<ConfigSource>) -> (r: Result<StrMap<Config>, ConfigError>)
    ensures
        match r {
            Ok(m) => {
                &&& m.wf()
                &&& m@ == configs_of(entries@)
                &&& forall|i: int| 0 <= i < entries@.len() ==> !failed_source(#[trigger] entries@[i])
            },
            Err(e) => exists|i: int|
                {
                    &&& 0 <= i < entries@.len()
                    &&& failed_source(#[trigger] entries@[i])
                    &&& forall|j: int| 0 <= j < i ==> !failed_source(#[trigger] entries@[j])
                    &&& e.name@ == entries@[i].name@
                    &&& entries@[i].outcome matches LoadOutcome::Failed(msg) && e.message@ == msg@
                },
        },
{
    let ghost orig = entries@;
    let mut out: StrMap<Config> = StrMap::new();
    let mut rest = entries;
    let ghost total = orig.len() as int;
    while rest.len() > 0
        invariant
            out.wf(),
            orig == entries@,
            rest@.len() <= total,
            orig.len() == total,
            rest@ == orig.skip(total - rest@.len()),
            out@ == configs_of(orig.take(total - rest@.len())),
            forall|j: int| 0 <= j < total - rest@.len() ==> !failed_source(#[trigger] orig[j]),
        decreases rest@.len(),
    {
        let ghost done = total - rest@.len();
        let ghost rest0 = rest@;
        let entry = rest.remove(0);
        proof {
            rest0.remove_ensures(0);
            assert(entry == orig[done]);
            assert(rest@ =~= orig.skip(done + 1));
            assert(orig.take(done + 1).drop_last() =~= orig.take(done));
            assert(orig.take(done + 1).last() == orig[done]);
        }
        let is_dir = entry.is_dir;
        match entry.outcome {
            LoadOutcome::Loaded(c) => {
                if is_dir {
                    out.insert(entry.name, c);
                }
            },
            LoadOutcome::NotFound => {},
            LoadOutcome::Failed(message) => {
                if is_dir {
                    proof {
                        assert(failed_source(orig[done]));
                        assert(forall|j: int| 0 <= j < done ==> !failed_source(#[trigger] orig[j]));
                        assert(orig[done].outcome matches LoadOutcome::Failed(m) && m == message);
                    }
                    return Err(ConfigError { name: entry.name, message });
                }
            },
        }
    }
    proof {
        assert(orig.take(total) =~= orig);
    }
    Ok(out)
}

} // verus!

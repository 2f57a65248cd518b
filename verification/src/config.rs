//! The saved configuration: where it lies, what is read from it, and the
//! commands that change its excluded paths.

use crate::path::{
    absolute, components, display_path, displayed, excluded, join_path, joined,
    law_shown_reads_back, normalize_path, normalized, path_eq, path_within, push_unique_path,
    same_path, with_path,
};
use crate::text::{
    concat2, concat3, copy_texts, lemma_sorted_unique, lemma_text_le_total, opt_view, sort_texts,
    text_le, texts, texts_sorted,
};
use vstd::prelude::*;

verus! {

/// A rule for archiving the cold files beneath one directory.
#[derive(Debug, PartialEq, Eq)]
pub struct ArchivePolicy {
    /// The directory whose files are archived.
    pub path: String,
    /// What the keys of its objects start with.
    pub prefix: String,
    /// How old a file must be.
    pub older_than_days: u64,
    /// Whether a key holds the date on which the file was modified.
    pub partition_by_date: bool,
    /// Paths that stay out, seen from `path`.
    pub exclude: Vec<String>,
}

/// What the configuration file holds.
#[derive(Debug, PartialEq, Eq)]
pub struct Config {
    /// The paths that are never scanned or cleaned.
    pub exclude: Vec<String>,
    /// The archive policies.
    pub archive: Vec<ArchivePolicy>,
}

/// What reading the configuration file gave.
#[derive(Debug, PartialEq, Eq)]
pub enum ConfigRead {
    /// There is no such file.
    Missing,
    /// It could not be read, with the reason.
    Failed(String),
    /// It does not hold a configuration, with the reason.
    Malformed(String),
    /// It holds this configuration.
    Parsed(Config),
}

/// What an archive policy says.
pub struct PolicyView {
    pub path: Seq<char>,
    pub prefix: Seq<char>,
    pub older_than_days: u64,
    pub partition_by_date: bool,
    pub exclude: Seq<Seq<char>>,
}

impl View for ArchivePolicy {
    type V = PolicyView;

    open spec fn view(&self) -> PolicyView {
        PolicyView {
            path: self.path@,
            prefix: self.prefix@,
            older_than_days: self.older_than_days,
            partition_by_date: self.partition_by_date,
            exclude: texts(self.exclude@),
        }
    }
}

/// What a configuration says.
pub struct ConfigView {
    pub exclude: Seq<Seq<char>>,
    pub archive: Seq<PolicyView>,
}

impl View for Config {
    type V = ConfigView;

    open spec fn view(&self) -> ConfigView {
        ConfigView {
            exclude: texts(self.exclude@),
            archive: self.archive@.map_values(|policy: ArchivePolicy| policy@),
        }
    }
}

/// What reading the configuration file gave.
pub enum ReadView {
    Missing,
    Failed(Seq<char>),
    Malformed(Seq<char>),
    Parsed(ConfigView),
}

impl View for ConfigRead {
    type V = ReadView;

    open spec fn view(&self) -> ReadView {
        match *self {
            ConfigRead::Missing => ReadView::Missing,
            ConfigRead::Failed(reason) => ReadView::Failed(reason@),
            ConfigRead::Malformed(reason) => ReadView::Malformed(reason@),
            ConfigRead::Parsed(config) => ReadView::Parsed(config@),
        }
    }
}

/// What reading a file gives whose text was parsed with this result.
pub open spec fn read_of(parsed: Result<ConfigView, Seq<char>>) -> ReadView {
    match parsed {
        Ok(config) => ReadView::Parsed(config),
        Err(reason) => ReadView::Malformed(reason),
    }
}

/// A command on the saved excluded paths.
#[derive(Debug, PartialEq, Eq)]
pub enum ConfigCommand {
    /// Save an excluded path.
    AddExclude { path: String },
    /// Remove an excluded path.
    RemoveExclude { path: String },
    /// List the excluded paths.
    List,
    /// Print where the configuration lies.
    Path,
}

/// What is left to do after a command: whether to save, and the lines to print.
#[derive(Debug, PartialEq, Eq)]
pub struct ConfigOutcome {
    pub save: bool,
    pub output: Vec<String>,
}

impl Config {
    /// The configuration file in the home directory.
    pub open spec fn default_path_text(home: Seq<char>) -> Seq<char> {
        joined(home, ".config/disk-cleaner/config.json"@)
    }

    /// The configuration file: the one that was named, or the default one.
    pub open spec fn path_text(path: Option<Seq<char>>, home: Seq<char>) -> Seq<char> {
        match path {
            Some(path) => path,
            None => Config::default_path_text(home),
        }
    }

    /// Where the configuration lies if nothing else is said.
    pub fn default_path(home: &str) -> (r: String)
        ensures
            r@ == Config::default_path_text(home@),
    {
        join_path(home, ".config/disk-cleaner/config.json")
    }

    /// Where the configuration lies.
    pub fn path(path: Option<&str>, home: &str) -> (r: String)
        ensures
            r@ == Config::path_text(opt_view(path), home@),
    {
        match path {
            Some(path) => path.to_owned(),
            None => Config::default_path(home),
        }
    }

    /// The configuration that stands for what reading the file at `config_path` gave,
    /// or the error.
    pub open spec fn loaded(read: ReadView, config_path: Seq<char>) -> Result<
        ConfigView,
        Seq<char>,
    > {
        match read {
            ReadView::Missing => Ok(ConfigView { exclude: Seq::empty(), archive: Seq::empty() }),
            ReadView::Failed(reason) => Err(reason),
            ReadView::Malformed(reason) => Err(
                "failed to parse config "@ + config_path + ": "@ + reason,
            ),
            ReadView::Parsed(config) => Ok(config),
        }
    }

    /// The text that is written to the file, or the error, from what encoding the
    /// configuration gave.
    pub open spec fn written(encoded: Result<Seq<char>, Seq<char>>) -> Result<
        Seq<char>,
        Seq<char>,
    > {
        match encoded {
            Ok(content) => Ok(content + "\n"@),
            Err(reason) => Err("failed to encode config: "@ + reason),
        }
    }

    /// The configuration that reading the file at `config_path` gave, unchanged where
    /// the file was parsed. A file that does not exist stands for the empty
    /// configuration. Parsing is the caller's, and so is that a text that was saved
    /// parses as the configuration that it was written for.
    pub fn load(read: ConfigRead, config_path: &str) -> (r: Result<Config, String>)
        ensures
            match r {
                Ok(config) => Config::loaded(read@, config_path@) == Ok::<ConfigView, Seq<char>>(
                    config@,
                ),
                Err(error) => Config::loaded(read@, config_path@) == Err::<ConfigView, Seq<char>>(
                    error@,
                ),
            },
            read matches ConfigRead::Parsed(config) ==> r == Ok::<Config, String>(config),
    {
        match read {
            ConfigRead::Missing => {
                let config = Config::default();
                assert(config@.exclude =~= Seq::empty());
                assert(config@.archive =~= Seq::empty());
                Ok(config)
            },
            ConfigRead::Failed(reason) => Err(reason),
            ConfigRead::Malformed(reason) => {
                let mut error = concat3("failed to parse config ", config_path, ": ");
                error.append(reason.as_str());
                Err(error)
            },
            ConfigRead::Parsed(config) => Ok(config),
        }
    }

    /// The text that is written to the file, from what encoding the
    /// configuration gave.
    pub fn save(encoded: Result<String, String>) -> (r: Result<String, String>)
        ensures
            text_result(r) == Config::written(text_result(encoded)),
    {
        match encoded {
            Ok(content) => Ok(concat2(content.as_str(), "\n")),
            Err(reason) => Err(concat2("failed to encode config: ", reason.as_str())),
        }
    }
}

/// A result that is a text either way.
pub open spec fn text_result(r: Result<String, String>) -> Result<Seq<char>, Seq<char>> {
    match r {
        Ok(text) => Ok(text@),
        Err(error) => Err(error@),
    }
}

/// What is saved is loaded as it was, wherever the file lies: where an encoding with a
/// line feed behind it is parsed as the configuration that was encoded, that
/// configuration is loaded from the text that is written.
pub proof fn law_saved_is_loaded(
    config: ConfigView,
    encode: spec_fn(ConfigView) -> Seq<char>,
    parse: spec_fn(Seq<char>) -> Result<ConfigView, Seq<char>>,
    config_path: Seq<char>,
)
    requires
        parse(encode(config) + "\n"@) == Ok::<ConfigView, Seq<char>>(config),
    ensures
        Config::written(Ok(encode(config))) matches Ok(text) && Config::loaded(
            read_of(parse(text)),
            config_path,
        ) == Ok::<ConfigView, Seq<char>>(config),
{
}

impl Default for Config {
    fn default() -> (r: Config)
        ensures
            r.exclude@.len() == 0,
            r.archive@.len() == 0,
    {
        Config { exclude: Vec::new(), archive: Vec::new() }
    }
}

/// Some saved entry stands for the same path as `path` does.
pub open spec fn saved(
    exclude: Seq<Seq<char>>,
    path: Seq<char>,
    home: Seq<char>,
    current_dir: Option<Seq<char>>,
) -> bool {
    exists|i: int|
        0 <= i < exclude.len() && same_path(
            normalized(#[trigger] exclude[i], home, current_dir),
            normalized(path, home, current_dir),
        )
}

/// The text under which an excluded path is saved.
pub open spec fn saved_text(
    path: Seq<char>,
    home: Seq<char>,
    current_dir: Option<Seq<char>>,
) -> Seq<char> {
    displayed(normalized(path, home, current_dir), home)
}

/// The saved entries that stand for another path than `path` does.
pub open spec fn without_path(
    exclude: Seq<Seq<char>>,
    path: Seq<char>,
    home: Seq<char>,
    current_dir: Option<Seq<char>>,
) -> Seq<Seq<char>> {
    exclude.filter(
        |entry: Seq<char>|
            !same_path(
                normalized(entry, home, current_dir),
                normalized(path, home, current_dir),
            ),
    )
}

/// `after` is what the entries `before` become when `path` is saved: the same, if
/// some entry stands for that path; else those and the path's text, in
/// ascending order.
pub open spec fn added(
    before: Seq<Seq<char>>,
    after: Seq<Seq<char>>,
    path: Seq<char>,
    home: Seq<char>,
    current_dir: Option<Seq<char>>,
) -> bool {
    let text = saved_text(path, home, current_dir);
    if saved(before, text, home, current_dir) {
        after == before
    } else {
        texts_sorted(after) && after.to_multiset() == before.to_multiset().insert(text)
    }
}

/// Whether some saved entry stands for the path `target`.
fn is_saved(exclude: &[String], target: &str, home: &str, current_dir: Option<&str>) -> (r: bool)
    ensures
        r == saved(texts(exclude@), target@, home@, opt_view(current_dir)),
{
    let wanted = normalize_path(target, home, current_dir);
    let ghost all = texts(exclude@);
    for i in 0..exclude.len()
        invariant
            all == texts(exclude@),
            wanted@ == normalized(target@, home@, opt_view(current_dir)),
            forall|j: int|
                0 <= j < i ==> !same_path(
                    normalized(#[trigger] all[j], home@, opt_view(current_dir)),
                    wanted@,
                ),
    {
        assert(all[i as int] == exclude@[i as int]@);
        let entry = normalize_path(exclude[i].as_str(), home, current_dir);
        if path_eq(entry.as_str(), wanted.as_str()) {
            return true;
        }
    }
    false
}

/// The saved entries that stand for another path than `path`.
fn remove_path(exclude: &[String], path: &str, home: &str, current_dir: Option<&str>) -> (r: Vec<
    String,
>)
    ensures
        texts(r@) == without_path(texts(exclude@), path@, home@, opt_view(current_dir)),
{
    let wanted = normalize_path(path, home, current_dir);
    let mut out: Vec<String> = Vec::new();
    let ghost all = texts(exclude@);
    let ghost keep = |entry: Seq<char>|
        !same_path(
            normalized(entry, home@, opt_view(current_dir)),
            normalized(path@, home@, opt_view(current_dir)),
        );
    proof {
        reveal(Seq::filter);
        assert(texts(out@) =~= all.take(0).filter(keep));
    }
    for i in 0..exclude.len()
        invariant
            all == texts(exclude@),
            wanted@ == normalized(path@, home@, opt_view(current_dir)),
            keep == (|entry: Seq<char>|
                !same_path(
                    normalized(entry, home@, opt_view(current_dir)),
                    normalized(path@, home@, opt_view(current_dir)),
                )),
            texts(out@) == all.take(i as int).filter(keep),
    {
        let ghost before = out@;
        proof {
            reveal(Seq::filter);
            assert(all.take(i + 1).drop_last() =~= all.take(i as int));
            assert(all[i as int] == exclude@[i as int]@);
        }
        let entry = normalize_path(exclude[i].as_str(), home, current_dir);
        if !path_eq(entry.as_str(), wanted.as_str()) {
            out.push(exclude[i].clone());
            assert(texts(out@) =~= texts(before).push(all[i as int]));
        }
    }
    assert(all.take(exclude@.len() as int) =~= all);
    out
}

/// Runs a command on the configuration that was loaded.
pub fn run_config_command(
    command: &ConfigCommand,
    config: &mut Config,
    config_path: Option<&str>,
    home: &str,
    current_dir: Option<&str>,
) -> (r: ConfigOutcome)
    ensures
        final(config).archive == old(config).archive,
        match *command {
            ConfigCommand::AddExclude { path } => {
                let text = saved_text(path@, home@, opt_view(current_dir));
                let before = texts(old(config).exclude@);
                let after = texts(final(config).exclude@);
                &&& texts(r.output@) == seq!["Added exclude: "@ + text]
                &&& r.save == !saved(before, text, home@, opt_view(current_dir))
                &&& added(before, after, path@, home@, opt_view(current_dir))
            },
            ConfigCommand::RemoveExclude { path } => {
                let text = saved_text(path@, home@, opt_view(current_dir));
                let before = texts(old(config).exclude@);
                let after = texts(final(config).exclude@);
                &&& after == without_path(before, path@, home@, opt_view(current_dir))
                &&& r.save
                &&& texts(r.output@) == seq![
                    if after.len() == before.len() {
                        "Exclude not found: "@ + text
                    } else {
                        "Removed exclude: "@ + text
                    },
                ]
            },
            ConfigCommand::List => {
                &&& final(config).exclude == old(config).exclude
                &&& !r.save
                &&& texts(r.output@) == if old(config).exclude@.len() == 0 {
                    seq!["No saved exclude paths."@]
                } else {
                    texts(old(config).exclude@)
                }
            },
            ConfigCommand::Path => {
                &&& final(config).exclude == old(config).exclude
                &&& !r.save
                &&& texts(r.output@) == seq![Config::path_text(opt_view(config_path), home@)]
            },
        },
{
    let mut output: Vec<String> = Vec::new();
    let mut save = false;
    match command {
        ConfigCommand::AddExclude { path } => {
            let full = normalize_path(path.as_str(), home, current_dir);
            let text = display_path(full.as_str(), home);
            if !is_saved(config.exclude.as_slice(), text.as_str(), home, current_dir) {
                let ghost before = texts(config.exclude@);
                let mut longer = copy_texts(config.exclude.as_slice());
                longer.push(text.clone());
                proof {
                    broadcast use vstd::seq_lib::group_to_multiset_ensures;

                    assert(texts(longer@) =~= before.push(text@));
                }
                config.exclude = sort_texts(longer.as_slice());
                save = true;
            }
            output.push(concat2("Added exclude: ", text.as_str()));
            assert(texts(output@) =~= seq!["Added exclude: "@ + text@]);
        },
        ConfigCommand::RemoveExclude { path } => {
            let full = normalize_path(path.as_str(), home, current_dir);
            let text = display_path(full.as_str(), home);
            let before: usize = config.exclude.len();
            assert(texts(config.exclude@).len() == before);
            config.exclude = remove_path(
                config.exclude.as_slice(),
                path.as_str(),
                home,
                current_dir,
            );
            assert(texts(config.exclude@).len() == config.exclude@.len());
            save = true;
            if config.exclude.len() == before {
                output.push(concat2("Exclude not found: ", text.as_str()));
                assert(texts(output@) =~= seq!["Exclude not found: "@ + text@]);
            } else {
                output.push(concat2("Removed exclude: ", text.as_str()));
                assert(texts(output@) =~= seq!["Removed exclude: "@ + text@]);
            }
        },
        ConfigCommand::List => {
            if config.exclude.len() == 0 {
                output.push("No saved exclude paths.".to_owned());
                assert(texts(output@) =~= seq!["No saved exclude paths."@]);
            } else {
                output = copy_texts(config.exclude.as_slice());
            }
        },
        ConfigCommand::Path => {
            output.push(Config::path(config_path, home));
            assert(texts(output@) =~= seq![Config::path_text(opt_view(config_path), home@)]);
        },
    }
    ConfigOutcome { save, output }
}

/// The given paths in order, each normalized, without those that are there
/// already.
pub open spec fn merged(
    paths: Seq<Seq<char>>,
    home: Seq<char>,
    current_dir: Option<Seq<char>>,
) -> Seq<Seq<char>>
    decreases paths.len(),
{
    if paths.len() == 0 {
        Seq::empty()
    } else {
        with_path(
            merged(paths.drop_last(), home, current_dir),
            normalized(paths.last(), home, current_dir),
        )
    }
}

/// The excluded paths of a run: the saved ones and then those given for the run,
/// each expanded, and none twice.
pub fn merge_excludes(
    config: &Config,
    cli_excludes: &[String],
    home: &str,
    current_dir: Option<&str>,
) -> (r: Vec<String>)
    ensures
        texts(r@) == merged(
            texts(config.exclude@) + texts(cli_excludes@),
            home@,
            opt_view(current_dir),
        ),
{
    let mut excludes: Vec<String> = Vec::new();
    let ghost dir = opt_view(current_dir);
    let ghost all = texts(config.exclude@) + texts(cli_excludes@);
    let ghost n = config.exclude@.len() as int;
    assert(texts(excludes@) =~= merged(all.take(0), home@, dir));
    for i in 0..config.exclude.len()
        invariant
            dir == opt_view(current_dir),
            n == config.exclude@.len(),
            all == texts(config.exclude@) + texts(cli_excludes@),
            texts(excludes@) == merged(all.take(i as int), home@, dir),
    {
        assert(all.take(i + 1).drop_last() =~= all.take(i as int));
        assert(all.take(i + 1).last() == config.exclude@[i as int]@);
        let path = normalize_path(config.exclude[i].as_str(), home, current_dir);
        push_unique_path(&mut excludes, path);
    }
    for i in 0..cli_excludes.len()
        invariant
            dir == opt_view(current_dir),
            n == config.exclude@.len(),
            all == texts(config.exclude@) + texts(cli_excludes@),
            texts(excludes@) == merged(all.take(n + i), home@, dir),
    {
        assert(all.take(n + i + 1).drop_last() =~= all.take(n + i));
        assert(all.take(n + i + 1).last() == cli_excludes@[i as int]@);
        let path = normalize_path(cli_excludes[i].as_str(), home, current_dir);
        push_unique_path(&mut excludes, path);
    }
    assert(all.take(n + cli_excludes@.len()) =~= all);
    excludes
}

/// The text under which a path is saved stands for that path.
pub proof fn law_saved_text_reads_back(
    path: Seq<char>,
    home: Seq<char>,
    current_dir: Option<Seq<char>>,
)
    requires
        current_dir matches Some(dir) ==> absolute(dir),
    ensures
        same_path(
            normalized(saved_text(path, home, current_dir), home, current_dir),
            normalized(path, home, current_dir),
        ),
{
    law_shown_reads_back(path, home, current_dir);
}

/// A path that was saved is among the saved ones, and no entry got lost.
pub proof fn law_add_saves(
    before: Seq<Seq<char>>,
    after: Seq<Seq<char>>,
    path: Seq<char>,
    home: Seq<char>,
    current_dir: Option<Seq<char>>,
)
    requires
        current_dir matches Some(dir) ==> absolute(dir),
        added(before, after, path, home, current_dir),
    ensures
        saved(after, path, home, current_dir),
        forall|i: int| 0 <= i < before.len() ==> after.contains(#[trigger] before[i]),
{
    broadcast use vstd::seq_lib::group_to_multiset_ensures;

    let full = normalized(path, home, current_dir);
    let text = saved_text(path, home, current_dir);
    law_saved_text_reads_back(path, home, current_dir);
    if saved(before, text, home, current_dir) {
        let i = choose|i: int|
            0 <= i < before.len() && same_path(
                normalized(#[trigger] before[i], home, current_dir),
                normalized(text, home, current_dir),
            );
        assert(same_path(normalized(after[i], home, current_dir), full));
    } else {
        assert(after.to_multiset().count(text) > 0);
        assert(after.contains(text));
        let i = choose|i: int| 0 <= i < after.len() && after[i] == text;
        assert(same_path(normalized(after[i], home, current_dir), full));
        assert forall|i: int| 0 <= i < before.len() implies after.contains(
            #[trigger] before[i],
        ) by {
            assert(before.contains(before[i]));
            assert(before.to_multiset().count(before[i]) > 0);
            assert(after.to_multiset().count(before[i]) > 0);
        }
    }
}

/// Saving a path a second time changes nothing.
pub proof fn law_add_twice(
    before: Seq<Seq<char>>,
    once: Seq<Seq<char>>,
    twice: Seq<Seq<char>>,
    path: Seq<char>,
    home: Seq<char>,
    current_dir: Option<Seq<char>>,
)
    requires
        current_dir matches Some(dir) ==> absolute(dir),
        added(before, once, path, home, current_dir),
        added(once, twice, path, home, current_dir),
    ensures
        twice == once,
{
    let text = saved_text(path, home, current_dir);
    law_add_saves(before, once, path, home, current_dir);
    law_saved_text_reads_back(path, home, current_dir);
    let i = choose|i: int|
        0 <= i < once.len() && same_path(
            normalized(#[trigger] once[i], home, current_dir),
            normalized(path, home, current_dir),
        );
    assert(same_path(
        normalized(once[i], home, current_dir),
        normalized(text, home, current_dir),
    ));
}

/// A path that was removed is no longer saved, and every entry for another path
/// stays.
pub proof fn law_remove_forgets(
    before: Seq<Seq<char>>,
    path: Seq<char>,
    home: Seq<char>,
    current_dir: Option<Seq<char>>,
)
    ensures
        !saved(without_path(before, path, home, current_dir), path, home, current_dir),
        forall|other: Seq<char>|
            #![trigger before.contains(other)]
            before.contains(other) && !same_path(
                normalized(other, home, current_dir),
                normalized(path, home, current_dir),
            ) ==> without_path(before, path, home, current_dir).contains(other),
{
    let keep = |entry: Seq<char>|
        !same_path(normalized(entry, home, current_dir), normalized(path, home, current_dir));
    let after = without_path(before, path, home, current_dir);
    assert(after == before.filter(keep));
    broadcast use vstd::seq_lib::group_filter_ensures;

    assert forall|i: int| 0 <= i < after.len() implies !same_path(
        normalized(#[trigger] after[i], home, current_dir),
        normalized(path, home, current_dir),
    ) by {
        assert(keep(before.filter(keep)[i]));
    }
    assert forall|other: Seq<char>|
        #![trigger before.contains(other)]
        before.contains(other) && !same_path(
            normalized(other, home, current_dir),
            normalized(path, home, current_dir),
        ) implies after.contains(other) by {
        let i = choose|i: int| 0 <= i < before.len() && before[i] == other;
        assert(keep(before[i]));
    }
}

proof fn lemma_filter_multiset(s: Seq<Seq<char>>, keep: spec_fn(Seq<char>) -> bool, x: Seq<char>)
    ensures
        s.filter(keep).to_multiset().count(x) == if keep(x) {
            s.to_multiset().count(x)
        } else {
            0
        },
    decreases s.len(),
{
    broadcast use vstd::seq_lib::group_to_multiset_ensures;

    reveal(Seq::filter);
    if s.len() == 0 {
        assert(s.filter(keep) =~= s);
        assert(s.to_multiset().count(x) == 0) by {
            assert(!s.contains(x));
        }
    } else {
        let front = s.drop_last();
        lemma_filter_multiset(front, keep, x);
        assert(s =~= front.push(s.last()));
    }
}

proof fn lemma_filter_sorted(s: Seq<Seq<char>>, keep: spec_fn(Seq<char>) -> bool)
    requires
        texts_sorted(s),
    ensures
        texts_sorted(s.filter(keep)),
    decreases s.len(),
{
    reveal(Seq::filter);
    if s.len() > 0 {
        let front = s.drop_last();
        assert(texts_sorted(front)) by {
            assert forall|i: int, j: int| 0 <= i <= j < front.len() implies text_le(
                #[trigger] front[i],
                #[trigger] front[j],
            ) by {
                assert(text_le(s[i], s[j]));
            }
        }
        lemma_filter_sorted(front, keep);
        let kept = front.filter(keep);
        let all = s.filter(keep);
        assert forall|i: int, j: int| 0 <= i <= j < all.len() implies text_le(
            #[trigger] all[i],
            #[trigger] all[j],
        ) by {
            if keep(s.last()) && j == kept.len() {
                if i < j {
                    front.lemma_filter_contains_rev(keep, kept[i]);
                    let k = choose|k: int| 0 <= k < front.len() && front[k] == kept[i];
                    assert(text_le(s[k], s[s.len() - 1]));
                } else {
                    lemma_text_le_total(all[i], all[j]);
                }
            } else {
                assert(text_le(kept[i], kept[j]));
            }
        }
    }
}

/// Removing a path undoes saving it, if it was not saved before and the entries
/// were in order.
pub proof fn law_remove_undoes_add(
    before: Seq<Seq<char>>,
    after: Seq<Seq<char>>,
    path: Seq<char>,
    home: Seq<char>,
    current_dir: Option<Seq<char>>,
)
    requires
        current_dir matches Some(dir) ==> absolute(dir),
        texts_sorted(before),
        !saved(before, path, home, current_dir),
        added(before, after, path, home, current_dir),
    ensures
        without_path(after, path, home, current_dir) == before,
{
    broadcast use vstd::seq_lib::group_to_multiset_ensures;

    let keep = |entry: Seq<char>|
        !same_path(normalized(entry, home, current_dir), normalized(path, home, current_dir));
    let full = normalized(path, home, current_dir);
    let text = saved_text(path, home, current_dir);
    law_saved_text_reads_back(path, home, current_dir);
    if saved(before, text, home, current_dir) {
        let i = choose|i: int|
            0 <= i < before.len() && same_path(
                normalized(#[trigger] before[i], home, current_dir),
                normalized(text, home, current_dir),
            );
        assert(same_path(normalized(before[i], home, current_dir), full));
        assert(false);
    }
    let back = after.filter(keep);
    lemma_filter_sorted(after, keep);
    assert forall|x: Seq<char>| #[trigger] back.to_multiset().count(x)
        == before.to_multiset().count(x) by {
        lemma_filter_multiset(after, keep, x);
        if before.to_multiset().count(x) > 0 {
            assert(before.contains(x));
            let i = choose|i: int| 0 <= i < before.len() && before[i] == x;
            assert(keep(before[i]));
        }
        if x == text {
            assert(!keep(text));
        }
    }
    assert(back.to_multiset() =~= before.to_multiset());
    lemma_sorted_unique(back, before);
    assert(without_path(after, path, home, current_dir) == back);
}

/// Merging keeps what is excluded: a path is excluded by the merged paths if and
/// only if it lies within one of the given ones.
pub proof fn law_merge_keeps(
    paths: Seq<Seq<char>>,
    home: Seq<char>,
    current_dir: Option<Seq<char>>,
    p: Seq<char>,
)
    ensures
        excluded(p, merged(paths, home, current_dir)) <==> exists|i: int|
            0 <= i < paths.len() && path_within(
                p,
                normalized(#[trigger] paths[i], home, current_dir),
            ),
    decreases paths.len(),
{
    let all = merged(paths, home, current_dir);
    if paths.len() > 0 {
        let front = paths.drop_last();
        let before = merged(front, home, current_dir);
        let last = normalized(paths.last(), home, current_dir);
        law_merge_keeps(front, home, current_dir, p);
        if excluded(p, before) {
            let i = choose|i: int|
                0 <= i < front.len() && path_within(
                    p,
                    normalized(#[trigger] front[i], home, current_dir),
                );
            assert(path_within(p, normalized(paths[i], home, current_dir)));
            let j = choose|j: int| 0 <= j < before.len() && path_within(p, #[trigger] before[j]);
            assert(all[j] == before[j]);
        }
        if path_within(p, last) {
            if exists|i: int| 0 <= i < before.len() && same_path(#[trigger] before[i], last) {
                let j = choose|j: int|
                    0 <= j < before.len() && same_path(#[trigger] before[j], last);
                assert(path_within(p, all[j]));
            } else {
                assert(path_within(p, all[before.len() as int]));
            }
            assert(path_within(p, normalized(paths[paths.len() - 1], home, current_dir)));
        }
        if exists|i: int|
            0 <= i < paths.len() && path_within(
                p,
                normalized(#[trigger] paths[i], home, current_dir),
            ) {
            let i = choose|i: int|
                0 <= i < paths.len() && path_within(
                    p,
                    normalized(#[trigger] paths[i], home, current_dir),
                );
            if i < front.len() {
                assert(path_within(p, normalized(front[i], home, current_dir)));
            }
        }
        if excluded(p, all) {
            let j = choose|j: int| 0 <= j < all.len() && path_within(p, #[trigger] all[j]);
            if j < before.len() {
                assert(path_within(p, before[j]));
            }
        }
    }
}

/// No path is there twice after merging.
pub proof fn law_merge_distinct(
    paths: Seq<Seq<char>>,
    home: Seq<char>,
    current_dir: Option<Seq<char>>,
)
    ensures
        forall|i: int, j: int|
            0 <= i < j < merged(paths, home, current_dir).len() ==> !same_path(
                #[trigger] merged(paths, home, current_dir)[i],
                #[trigger] merged(paths, home, current_dir)[j],
            ),
    decreases paths.len(),
{
    if paths.len() > 0 {
        let before = merged(paths.drop_last(), home, current_dir);
        law_merge_distinct(paths.drop_last(), home, current_dir);
        let all = merged(paths, home, current_dir);
        assert forall|i: int, j: int| 0 <= i < j < all.len() implies !same_path(
            #[trigger] all[i],
            #[trigger] all[j],
        ) by {
            assert(all[i] == before[i]);
            if j < before.len() {
                assert(all[j] == before[j]);
            }
        }
    }
}

/// A path that was saved is excluded in every later run, with everything beneath
/// it.
pub proof fn law_saved_path_is_excluded(
    before: Seq<Seq<char>>,
    after: Seq<Seq<char>>,
    cli: Seq<Seq<char>>,
    path: Seq<char>,
    home: Seq<char>,
    current_dir: Option<Seq<char>>,
    p: Seq<char>,
)
    requires
        current_dir matches Some(dir) ==> absolute(dir),
        added(before, after, path, home, current_dir),
        path_within(p, normalized(path, home, current_dir)),
    ensures
        excluded(p, merged(after + cli, home, current_dir)),
{
    law_add_saves(before, after, path, home, current_dir);
    law_merge_keeps(after + cli, home, current_dir, p);
    let i = choose|i: int|
        0 <= i < after.len() && same_path(
            normalized(#[trigger] after[i], home, current_dir),
            normalized(path, home, current_dir),
        );
    assert((after + cli)[i] == after[i]);
    assert(components(normalized(after[i], home, current_dir)) == components(
        normalized(path, home, current_dir),
    ));
    assert(path_within(p, normalized((after + cli)[i], home, current_dir)));
}

/// The configuration lies where it was said to, and else in the home directory.
pub proof fn law_config_path(home: Seq<char>, named: Seq<char>)
    requires
        home.len() > 0 && home.last() != '/',
    ensures
        Config::path_text(Some(named), home) == named,
        Config::path_text(None, home) == home + seq!['/'] + ".config/disk-cleaner/config.json"@,
{
    reveal_strlit(".config/disk-cleaner/config.json");
    assert(home.push('/') + ".config/disk-cleaner/config.json"@ =~= home + seq!['/']
        + ".config/disk-cleaner/config.json"@);
}

/// Saving a path leaves the entries as they are where one of them has the components of the
/// path; else it adds one entry, and they all stand in order.
pub proof fn law_add_exact(
    before: Seq<Seq<char>>,
    after: Seq<Seq<char>>,
    path: Seq<char>,
    home: Seq<char>,
    current_dir: Option<Seq<char>>,
)
    requires
        current_dir matches Some(dir) ==> absolute(dir),
        added(before, after, path, home, current_dir),
    ensures
        (exists|i: int|
            0 <= i < before.len() && components(
                normalized(#[trigger] before[i], home, current_dir),
            ) == components(normalized(path, home, current_dir))) ==> after == before,
        (forall|i: int|
            0 <= i < before.len() ==> components(
                normalized(#[trigger] before[i], home, current_dir),
            ) != components(normalized(path, home, current_dir))) ==> {
            &&& after.len() == before.len() + 1
            &&& after.contains(displayed(normalized(path, home, current_dir), home))
            &&& forall|i: int, j: int|
                0 <= i <= j < after.len() ==> text_le(#[trigger] after[i], #[trigger] after[j])
            &&& forall|i: int| 0 <= i < before.len() ==> after.contains(#[trigger] before[i])
        },
{
    broadcast use vstd::seq_lib::group_to_multiset_ensures;

    let text = saved_text(path, home, current_dir);
    law_saved_text_reads_back(path, home, current_dir);
    law_add_saves(before, after, path, home, current_dir);
    if exists|i: int|
        0 <= i < before.len() && components(normalized(#[trigger] before[i], home, current_dir))
            == components(normalized(path, home, current_dir)) {
        let i = choose|i: int|
            0 <= i < before.len() && components(normalized(#[trigger] before[i], home, current_dir))
                == components(normalized(path, home, current_dir));
        assert(same_path(
            normalized(before[i], home, current_dir),
            normalized(text, home, current_dir),
        ));
        assert(saved(before, text, home, current_dir));
    } else {
        if saved(before, text, home, current_dir) {
            let i = choose|i: int|
                0 <= i < before.len() && same_path(
                    normalized(#[trigger] before[i], home, current_dir),
                    normalized(text, home, current_dir),
                );
            assert(components(normalized(before[i], home, current_dir)) == components(
                normalized(path, home, current_dir),
            ));
        }
        assert(after.len() == after.to_multiset().len());
        assert(before.len() == before.to_multiset().len());
        assert(after.to_multiset().count(text) > 0);
        assert(after.contains(text));
    }
}

/// Removing a path takes away just the entries with its components.
pub proof fn law_remove_exact(
    before: Seq<Seq<char>>,
    path: Seq<char>,
    home: Seq<char>,
    current_dir: Option<Seq<char>>,
    entry: Seq<char>,
)
    ensures
        without_path(before, path, home, current_dir).contains(entry) <==> before.contains(entry)
            && components(normalized(entry, home, current_dir)) != components(
            normalized(path, home, current_dir),
        ),
{
    let keep = |entry: Seq<char>|
        !same_path(normalized(entry, home, current_dir), normalized(path, home, current_dir));
    let after = without_path(before, path, home, current_dir);
    assert(after == before.filter(keep));
    law_remove_forgets(before, path, home, current_dir);
    if after.contains(entry) {
        before.lemma_filter_contains_rev(keep, entry);
        let i = choose|i: int| 0 <= i < after.len() && after[i] == entry;
        before.lemma_filter_pred(keep, i);
    }
}

/// Merging goes path by path: one more goes behind the others as it is when normalized,
/// unless one of them has the same components.
pub proof fn law_merge_next(
    paths: Seq<Seq<char>>,
    path: Seq<char>,
    home: Seq<char>,
    current_dir: Option<Seq<char>>,
)
    ensures
        merged(Seq::empty(), home, current_dir) == Seq::<Seq<char>>::empty(),
        ({
            let before = merged(paths, home, current_dir);
            let after = merged(paths.push(path), home, current_dir);
            let full = normalized(path, home, current_dir);
            if exists|i: int|
                0 <= i < before.len() && components(#[trigger] before[i]) == components(full) {
                after == before
            } else {
                after == before + seq![full]
            }
        }),
{
    let before = merged(paths, home, current_dir);
    let full = normalized(path, home, current_dir);
    assert(paths.push(path).drop_last() =~= paths);
    assert(before.push(full) =~= before + seq![full]);
    if exists|i: int| 0 <= i < before.len() && same_path(#[trigger] before[i], full) {
        let i = choose|i: int| 0 <= i < before.len() && same_path(#[trigger] before[i], full);
        assert(components(before[i]) == components(full));
    }
    if exists|i: int| 0 <= i < before.len() && components(#[trigger] before[i]) == components(
        full,
    ) {
        let i = choose|i: int|
            0 <= i < before.len() && components(#[trigger] before[i]) == components(full);
        assert(same_path(before[i], full));
    }
}

/// A path counts as saved if and only if some entry has its components.
pub proof fn law_saved(
    exclude: Seq<Seq<char>>,
    path: Seq<char>,
    home: Seq<char>,
    current_dir: Option<Seq<char>>,
)
    ensures
        saved(exclude, path, home, current_dir) <==> exists|i: int|
            0 <= i < exclude.len() && components(
                normalized(#[trigger] exclude[i], home, current_dir),
            ) == components(normalized(path, home, current_dir)),
{
    if saved(exclude, path, home, current_dir) {
        let i = choose|i: int|
            0 <= i < exclude.len() && same_path(
                normalized(#[trigger] exclude[i], home, current_dir),
                normalized(path, home, current_dir),
            );
        assert(components(normalized(exclude[i], home, current_dir)) == components(
            normalized(path, home, current_dir),
        ));
    }
    if exists|i: int|
        0 <= i < exclude.len() && components(normalized(#[trigger] exclude[i], home, current_dir))
            == components(normalized(path, home, current_dir)) {
        let i = choose|i: int|
            0 <= i < exclude.len() && components(
                normalized(#[trigger] exclude[i], home, current_dir),
            ) == components(normalized(path, home, current_dir));
        assert(same_path(
            normalized(exclude[i], home, current_dir),
            normalized(path, home, current_dir),
        ));
    }
}

/// A configuration that does not exist is empty, one that was read is taken as it is, and
/// one that could not be is an error, which names the file where that is at fault. What is
/// written ends with a line feed.
pub proof fn law_loading(config: ConfigView, reason: Seq<char>, config_path: Seq<char>)
    ensures
        Config::loaded(ReadView::Missing, config_path) matches Ok(empty) && empty.exclude.len()
            == 0 && empty.archive.len() == 0,
        Config::loaded(ReadView::Parsed(config), config_path) == Ok::<ConfigView, Seq<char>>(
            config,
        ),
        Config::loaded(ReadView::Failed(reason), config_path) == Err::<ConfigView, Seq<char>>(
            reason,
        ),
        Config::loaded(ReadView::Malformed(reason), config_path) == Err::<ConfigView, Seq<char>>(
            "failed to parse config "@ + config_path + ": "@ + reason,
        ),
        Config::written(Ok(reason)) == Ok::<Seq<char>, Seq<char>>(reason + seq!['\n']),
        Config::written(Err(reason)) == Err::<Seq<char>, Seq<char>>(
            "failed to encode config: "@ + reason,
        ),
{
    reveal_strlit("\n");
    assert("\n"@ =~= seq!['\n']);
}

/// Removing a path goes entry by entry, and those that stay keep their order.
pub proof fn law_remove_next(
    before: Seq<Seq<char>>,
    entry: Seq<char>,
    path: Seq<char>,
    home: Seq<char>,
    current_dir: Option<Seq<char>>,
)
    ensures
        without_path(Seq::empty(), path, home, current_dir).len() == 0,
        without_path(before.push(entry), path, home, current_dir) == without_path(
            before,
            path,
            home,
            current_dir,
        ) + if components(normalized(entry, home, current_dir)) == components(
            normalized(path, home, current_dir),
        ) {
            Seq::empty()
        } else {
            seq![entry]
        },
{
    reveal(Seq::filter);
    assert(before.push(entry).drop_last() =~= before);
    assert(without_path(before.push(entry), path, home, current_dir) =~= without_path(
        before,
        path,
        home,
        current_dir,
    ) + if components(normalized(entry, home, current_dir)) == components(
        normalized(path, home, current_dir),
    ) {
        Seq::empty()
    } else {
        seq![entry]
    });
}

} // verus!

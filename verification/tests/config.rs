use disk_cleaner::config::{
    merge_excludes, run_config_command, ArchivePolicy, Config, ConfigCommand, ConfigOutcome,
    ConfigRead,
};
use disk_cleaner::path::is_excluded;

const HOME: &str = "/Users/example";

fn config(exclude: &[&str]) -> Config {
    Config {
        exclude: exclude.iter().map(|path| path.to_string()).collect(),
        archive: Vec::new(),
    }
}

fn run(command: ConfigCommand, config: &mut Config) -> ConfigOutcome {
    run_config_command(&command, config, None, HOME, Some("/work"))
}

fn add(path: &str, config: &mut Config) -> ConfigOutcome {
    run(ConfigCommand::AddExclude { path: path.to_string() }, config)
}

fn remove(path: &str, config: &mut Config) -> ConfigOutcome {
    run(ConfigCommand::RemoveExclude { path: path.to_string() }, config)
}

#[test]
fn config_and_cli_excludes_are_merged_and_expanded() {
    let home = "/Users/example";
    let config = config(&["~/Codes/keep"]);
    let cli = vec!["~/Downloads/keep".to_string()];

    assert_eq!(
        merge_excludes(&config, &cli, home, Some("/work")),
        vec![
            "/Users/example/Codes/keep".to_string(),
            "/Users/example/Downloads/keep".to_string(),
        ]
    );
}

#[test]
fn merged_excludes_hold_no_path_twice() {
    let config = config(&["~/a", "/Users/example/a/", "b"]);
    let cli = vec!["~/a//".to_string(), "/work/b".to_string(), "~".to_string()];
    assert_eq!(
        merge_excludes(&config, &cli, HOME, Some("/work")),
        vec!["/Users/example/a", "/work/b", "/Users/example"]
    );
}

#[test]
fn the_default_config_lies_in_the_home_directory() {
    assert_eq!(
        Config::default_path(HOME),
        "/Users/example/.config/disk-cleaner/config.json"
    );
    assert_eq!(Config::path(None, HOME), Config::default_path(HOME));
    assert_eq!(Config::path(Some("c.json"), HOME), "c.json");
}

#[test]
fn a_missing_config_is_empty() {
    assert_eq!(Config::load(ConfigRead::Missing, "c"), Ok(Config::default()));
    assert_eq!(Config::default(), config(&[]));
}

#[test]
fn a_config_that_cannot_be_read_is_an_error() {
    assert_eq!(
        Config::load(ConfigRead::Failed("denied".to_string()), "c"),
        Err("denied".to_string())
    );
    assert_eq!(
        Config::load(ConfigRead::Malformed("line 1".to_string()), "/c.json"),
        Err("failed to parse config /c.json: line 1".to_string())
    );
    let parsed = Config {
        exclude: vec!["~/x".to_string()],
        archive: vec![ArchivePolicy {
            path: "~/r".to_string(),
            prefix: "p".to_string(),
            older_than_days: 30,
            partition_by_date: false,
            exclude: Vec::new(),
        }],
    };
    let again = Config {
        exclude: vec!["~/x".to_string()],
        archive: vec![ArchivePolicy {
            path: "~/r".to_string(),
            prefix: "p".to_string(),
            older_than_days: 30,
            partition_by_date: false,
            exclude: Vec::new(),
        }],
    };
    assert_eq!(Config::load(ConfigRead::Parsed(parsed), "c"), Ok(again));
}

#[test]
fn a_config_is_saved_with_a_final_line_feed() {
    assert_eq!(Config::save(Ok("{}".to_string())), Ok("{}\n".to_string()));
    assert_eq!(
        Config::save(Err("bad".to_string())),
        Err("failed to encode config: bad".to_string())
    );
}

#[test]
fn what_is_saved_is_loaded() {
    let excludes = vec!["~/a \"b\"".to_string(), "/c\\d\n".to_string(), "\u{e9}".to_string()];
    let encoded = serde_json::to_string_pretty(&excludes).map_err(|error| error.to_string());
    let text = Config::save(encoded).unwrap();
    assert!(text.ends_with("]\n"));
    let read = match serde_json::from_str::<Vec<String>>(&text) {
        Ok(exclude) => ConfigRead::Parsed(Config { exclude, archive: Vec::new() }),
        Err(error) => ConfigRead::Malformed(error.to_string()),
    };
    let loaded = Config::load(read, "c").unwrap();
    assert_eq!(loaded, Config { exclude: excludes, archive: Vec::new() });
}

#[test]
fn adding_an_exclude_saves_it_in_order() {
    let mut saved = config(&["~/b"]);
    let outcome = add("~/a", &mut saved);
    assert!(outcome.save);
    assert_eq!(outcome.output, vec!["Added exclude: ~/a"]);
    assert_eq!(saved, config(&["~/a", "~/b"]));
}

#[test]
fn adding_an_exclude_twice_changes_nothing() {
    let mut saved = config(&["z", "~/a"]);
    let outcome = add("/Users/example/a/", &mut saved);
    assert!(!outcome.save);
    assert_eq!(outcome.output, vec!["Added exclude: ~/a"]);
    assert_eq!(saved, config(&["z", "~/a"]));
}

#[test]
fn relative_excludes_are_saved_in_full() {
    let mut saved = config(&[]);
    assert_eq!(add("x/y", &mut saved).output, vec!["Added exclude: /work/x/y"]);
    assert_eq!(saved, config(&["/work/x/y"]));
}

#[test]
fn removing_an_exclude_undoes_adding_it() {
    let mut saved = config(&["~/b", "~/c"]);
    add("~/a", &mut saved);
    let outcome = remove("/Users/example/a", &mut saved);
    assert!(outcome.save);
    assert_eq!(outcome.output, vec!["Removed exclude: ~/a"]);
    assert_eq!(saved, config(&["~/b", "~/c"]));
}

#[test]
fn removing_what_is_not_there_says_so() {
    let mut saved = config(&["~/b"]);
    let outcome = remove("~/a", &mut saved);
    assert!(outcome.save);
    assert_eq!(outcome.output, vec!["Exclude not found: ~/a"]);
    assert_eq!(saved, config(&["~/b"]));
}

#[test]
fn removing_takes_every_spelling() {
    let mut saved = config(&["~/a", "/x", "/Users/example//a"]);
    remove("~/a/", &mut saved);
    assert_eq!(saved, config(&["/x"]));
}

#[test]
fn excludes_are_listed() {
    let mut none = config(&[]);
    let outcome = run(ConfigCommand::List, &mut none);
    assert!(!outcome.save);
    assert_eq!(outcome.output, vec!["No saved exclude paths."]);
    let mut some = config(&["~/b", "~/a"]);
    assert_eq!(run(ConfigCommand::List, &mut some).output, vec!["~/b", "~/a"]);
}

#[test]
fn the_config_path_is_printed() {
    let mut any = config(&[]);
    assert_eq!(
        run(ConfigCommand::Path, &mut any).output,
        vec!["/Users/example/.config/disk-cleaner/config.json"]
    );
    let outcome = run_config_command(&ConfigCommand::Path, &mut any, Some("c.json"), HOME, None);
    assert_eq!(outcome, ConfigOutcome { save: false, output: vec!["c.json".to_string()] });
}

#[test]
fn a_saved_path_is_excluded_later() {
    let mut saved = config(&[]);
    add("~/Codes/keep", &mut saved);
    let excludes = merge_excludes(&saved, &[], HOME, Some("/elsewhere"));
    assert!(is_excluded("/Users/example/Codes/keep/x", &excludes));
    assert!(!is_excluded("/Users/example/Codes/other", &excludes));
}

#[test]
fn a_command_leaves_the_archive_policies_alone() {
    let policy = || ArchivePolicy {
        path: "~/r".to_string(),
        prefix: "p".to_string(),
        older_than_days: 1,
        partition_by_date: true,
        exclude: vec!["x".to_string()],
    };
    let mut saved = Config { exclude: Vec::new(), archive: vec![policy()] };
    add("~/a", &mut saved);
    assert_eq!(saved.archive, vec![policy()]);
}

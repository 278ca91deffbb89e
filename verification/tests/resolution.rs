use aurene::discover::{discover, Entry, Root, Walked};
use aurene::error::Error;
use aurene::plan::{Config, LaunchPlan, Selection};
use aurene::profile_set::ProfileSet;
use aurene::resolve::{resolve, resolve_token};

fn directory(path: &str, files: &[&str]) -> Root {
    Root {
        path: path.to_string(),
        walked: Walked::Directory(files.iter().map(|f| Entry::File(f.to_string())).collect()),
    }
}

fn scan(roots: Vec<Root>) -> ProfileSet {
    discover(&roots, "**/*.dat").unwrap().profiles
}

fn strings(parts: &[&str]) -> Vec<String> {
    parts.iter().map(|p| p.to_string()).collect()
}

#[test]
fn tokens_against_colliding_names() {
    let set = scan(vec![directory("./profiles", &["a/x.dat", "b/x.dat", "y.dat"])]);
    assert_eq!(
        resolve_token(&set, "x.dat"),
        Err(Error::AmbiguousProfile(
            "x.dat".to_string(),
            strings(&["./profiles/a/x.dat", "./profiles/b/x.dat"]),
        ))
    );
    assert_eq!(resolve_token(&set, "a/x.dat").unwrap().path(), "./profiles/a/x.dat");
    assert_eq!(resolve_token(&set, "b/x.dat").unwrap().path(), "./profiles/b/x.dat");
    assert_eq!(resolve_token(&set, "y.dat").unwrap().path(), "./profiles/y.dat");
}

#[test]
fn token_that_matches_nothing_is_not_found() {
    let set = scan(vec![directory("./profiles", &["a/x.dat", "y.dat"])]);
    assert_eq!(resolve_token(&set, "z.dat"), Err(Error::ProfileNotFound("z.dat".to_string())));
    assert_eq!(resolve_token(&set, "X.dat"), Err(Error::ProfileNotFound("X.dat".to_string())));
    assert_eq!(resolve_token(&set, "c/x.dat"), Err(Error::ProfileNotFound("c/x.dat".to_string())));
    assert_eq!(resolve_token(&set, "dat"), Err(Error::ProfileNotFound("dat".to_string())));
    let empty = ProfileSet::new();
    assert_eq!(resolve_token(&empty, "y.dat"), Err(Error::ProfileNotFound("y.dat".to_string())));
}

#[test]
fn token_without_components_names_nothing() {
    let set = scan(vec![directory("/r", &["only.dat"])]);
    assert_eq!(resolve_token(&set, ""), Err(Error::ProfileNotFound("".to_string())));
    assert_eq!(resolve_token(&set, "/"), Err(Error::ProfileNotFound("/".to_string())));
    assert_eq!(resolve_token(&set, "only.dat").unwrap().path(), "/r/only.dat");
}

#[test]
fn token_may_reach_into_the_root() {
    let set = scan(vec![
        directory("/home/u/one", &["x.dat"]),
        directory("/home/u/two", &["x.dat"]),
    ]);
    assert_eq!(resolve_token(&set, "one/x.dat").unwrap().path(), "/home/u/one/x.dat");
    assert_eq!(resolve_token(&set, "/home/u/two/x.dat").unwrap().path(), "/home/u/two/x.dat");
}

#[test]
fn full_relative_path_singles_out_the_shorter_profile() {
    let set = scan(vec![directory("/r", &["x.dat", "a/x.dat"])]);
    assert_eq!(resolve_token(&set, "x.dat").unwrap().path(), "/r/x.dat");
    assert_eq!(resolve_token(&set, "a/x.dat").unwrap().path(), "/r/a/x.dat");
}

#[test]
fn same_relative_path_under_two_roots_stays_ambiguous() {
    let set = scan(vec![directory("/one", &["a/x.dat"]), directory("/two", &["a/x.dat"])]);
    assert_eq!(
        resolve_token(&set, "a/x.dat"),
        Err(Error::AmbiguousProfile(
            "a/x.dat".to_string(),
            strings(&["/one/a/x.dat", "/two/a/x.dat"]),
        ))
    );
    assert_eq!(
        resolve_token(&set, "x.dat"),
        Err(Error::AmbiguousProfile(
            "x.dat".to_string(),
            strings(&["/one/a/x.dat", "/two/a/x.dat"]),
        ))
    );
}

#[test]
fn resolve_keeps_the_order_and_the_repeats_of_the_tokens() {
    let set = scan(vec![directory("/r", &["a.dat", "b.dat", "c.dat"])]);
    let list = resolve(&set, &strings(&["c.dat", "a.dat", "c.dat"])).unwrap();
    let paths: Vec<&str> = list.iter().map(|p| p.path().as_str()).collect();
    assert_eq!(paths, vec!["/r/c.dat", "/r/a.dat", "/r/c.dat"]);
    assert_eq!(resolve(&set, &Vec::new()).unwrap().len(), 0);
}

#[test]
fn resolve_ends_with_the_error_of_the_first_bad_token() {
    let set = scan(vec![directory("/r", &["a/x.dat", "b/x.dat", "y.dat"])]);
    assert_eq!(
        resolve(&set, &strings(&["y.dat", "nope.dat", "x.dat"])),
        Err(Error::ProfileNotFound("nope.dat".to_string()))
    );
    assert!(matches!(
        resolve(&set, &strings(&["x.dat", "nope.dat"])),
        Err(Error::AmbiguousProfile(_, _))
    ));
}

#[test]
fn selection_puts_the_prompt_first() {
    let mut config = Config::default();
    assert_eq!(config.glob, "**/*.dat");
    assert_eq!(config.selection(), Selection::Named);
    config.all_profiles = true;
    assert_eq!(config.selection(), Selection::All);
    config.prompt = true;
    assert_eq!(config.selection(), Selection::Prompt);
    config.all_profiles = false;
    assert_eq!(config.selection(), Selection::Prompt);
}

#[test]
fn plan_of_all_profiles_follows_the_set() {
    let set = scan(vec![directory("/r", &["b.dat", "a.dat"])]);
    let mut config = Config::default();
    config.all_profiles = true;
    let plan = LaunchPlan::build(&set, config.clone(), &strings(&["ignored"])).unwrap();
    let paths: Vec<&str> = plan.profiles().iter().map(|p| p.path().as_str()).collect();
    assert_eq!(paths, vec!["/r/a.dat", "/r/b.dat"]);
    assert_eq!(plan.len(), 2);
    assert_eq!(*plan.config(), config);
    assert_eq!(plan.profile(1).unwrap().path(), "/r/b.dat");
    assert!(plan.profile(2).is_none());
}

#[test]
fn plan_of_tokens_follows_the_tokens() {
    let set = scan(vec![directory("/r", &["b.dat", "a.dat"])]);
    let plan = LaunchPlan::build(&set, Config::default(), &strings(&["b.dat", "a.dat"])).unwrap();
    let paths: Vec<&str> = plan.profiles().iter().map(|p| p.path().as_str()).collect();
    assert_eq!(paths, vec!["/r/b.dat", "/r/a.dat"]);
    let mut prompted = Config::default();
    prompted.prompt = true;
    prompted.all_profiles = true;
    let plan = LaunchPlan::build(&set, prompted, &strings(&["b.dat"])).unwrap();
    assert_eq!(plan.len(), 1);
    let failed = LaunchPlan::build(&set, Config::default(), &strings(&["c.dat"]));
    assert_eq!(failed.err(), Some(Error::ProfileNotFound("c.dat".to_string())));
}

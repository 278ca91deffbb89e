use aurene::profile::Profile;
use aurene::profile_set::ProfileSet;

fn strings(parts: &[&str]) -> Vec<String> {
    parts.iter().map(|p| p.to_string()).collect()
}

#[test]
fn found_profile_knows_its_parts() {
    let p = Profile::found("/home/u/profiles", "a/x.dat").unwrap();
    assert_eq!(p.path(), "/home/u/profiles/a/x.dat");
    assert_eq!(p.name(), "x.dat");
    assert_eq!(*p.components(), strings(&["home", "u", "profiles", "a", "x.dat"]));
    assert_eq!(p.relative(), strings(&["a", "x.dat"]));
}

#[test]
fn found_profile_needs_a_file_name() {
    assert!(Profile::found("/root", "").is_none());
    assert!(Profile::found("/root", "/").is_none());
    assert!(Profile::file("").is_none());
    assert!(Profile::file("//").is_none());
}

#[test]
fn file_profile_counts_only_its_name_as_relative() {
    let p = Profile::file("/saved/main.dat").unwrap();
    assert_eq!(p.path(), "/saved/main.dat");
    assert_eq!(p.relative(), strings(&["main.dat"]));
    assert_eq!(p.name(), "main.dat");
}

#[test]
fn named_by_compares_whole_components_from_the_end() {
    let p = Profile::found("/home/u", "a/x.dat").unwrap();
    assert!(p.named_by(&strings(&["x.dat"])));
    assert!(p.named_by(&strings(&["a", "x.dat"])));
    assert!(p.named_by(&strings(&["u", "a", "x.dat"])));
    assert!(p.named_by(&strings(&["home", "u", "a", "x.dat"])));
    assert!(!p.named_by(&strings(&[])));
    assert!(!p.named_by(&strings(&["X.dat"])));
    assert!(!p.named_by(&strings(&["dat"])));
    assert!(!p.named_by(&strings(&["a"])));
    assert!(!p.named_by(&strings(&["b", "x.dat"])));
    assert!(!p.named_by(&strings(&["x", "home", "u", "a", "x.dat"])));
}

#[test]
fn exactly_compares_the_path_beneath_the_root() {
    let p = Profile::found("/home/u", "a/x.dat").unwrap();
    assert!(p.exactly(&strings(&["a", "x.dat"])));
    assert!(!p.exactly(&strings(&["x.dat"])));
    assert!(!p.exactly(&strings(&["u", "a", "x.dat"])));
}

#[test]
fn clone_is_equal() {
    let p = Profile::found("/home/u", "a/x.dat").unwrap();
    assert_eq!(p.clone(), p);
}

#[test]
fn insert_keeps_order_and_refuses_duplicates() {
    let mut set = ProfileSet::new();
    assert_eq!(set.len(), 0);
    assert!(set.insert(Profile::found("/r", "m.dat").unwrap()));
    assert!(set.insert(Profile::found("/r", "a.dat").unwrap()));
    assert!(set.insert(Profile::found("/r", "z.dat").unwrap()));
    assert!(!set.insert(Profile::found("/r", "m.dat").unwrap()));
    assert!(!set.insert(Profile::file("/r/a.dat").unwrap()));
    assert!(set.insert(Profile::found("/r", "b/a.dat").unwrap()));
    let paths: Vec<&str> = set.profiles().iter().map(|p| p.path().as_str()).collect();
    assert_eq!(paths, vec!["/r/a.dat", "/r/b/a.dat", "/r/m.dat", "/r/z.dat"]);
    assert_eq!(set.len(), 4);
}

#[test]
fn gather_orders_the_profiles_and_keeps_the_first_of_each_path() {
    let set = ProfileSet::gather(vec![
        Profile::found("/r", "m.dat").unwrap(),
        Profile::found("/r/sub", "x.dat").unwrap(),
        Profile::found("/r", "a.dat").unwrap(),
        Profile::found("/r", "sub/x.dat").unwrap(),
        Profile::found("/r", "m.dat").unwrap(),
    ]);
    let paths: Vec<&str> = set.profiles().iter().map(|p| p.path().as_str()).collect();
    assert_eq!(paths, vec!["/r/a.dat", "/r/m.dat", "/r/sub/x.dat"]);
    assert_eq!(set.profiles()[2].relative(), strings(&["x.dat"]));
    assert_eq!(ProfileSet::gather(Vec::new()).len(), 0);
}

#[test]
fn pick_follows_the_places() {
    let set = ProfileSet::gather(vec![
        Profile::found("/r", "a.dat").unwrap(),
        Profile::found("/r", "b.dat").unwrap(),
        Profile::found("/r", "c.dat").unwrap(),
    ]);
    let chosen = set.pick(&vec![2, 0, 2]).unwrap();
    let paths: Vec<&str> = chosen.iter().map(|p| p.path().as_str()).collect();
    assert_eq!(paths, vec!["/r/c.dat", "/r/a.dat", "/r/c.dat"]);
    assert_eq!(set.pick(&Vec::new()).unwrap().len(), 0);
    assert!(set.pick(&vec![0, 3]).is_none());
}

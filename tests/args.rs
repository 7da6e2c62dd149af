use chameleon::args::{expand_home, Args, Settings, TargetError};

fn settings(pairs: &[(&str, &str)]) -> Settings {
    let v = pairs.iter().map(|(k, v)| (k.to_string(), v.to_string())).collect();
    Settings::from_pairs(v, "/home/u")
}

#[test]
fn wordlist_path_by_normalised_name() {
    let s = settings(&[("Microsoft_ASP_NET", "~/lists/asp.txt"), ("PHP_ext", "php,phtml")]);
    let args = Args::default();
    assert_eq!(
        args.get_wordlist_path(&s, "Microsoft ASP.NET"),
        Some(&"/home/u/lists/asp.txt".to_string())
    );
    assert_eq!(args.get_wordlist_path(&s, "PHP"), None);
    assert_eq!(args.get_extensions(&s, "PHP"), Some(&"php,phtml".to_string()));
    assert_eq!(args.get_extensions(&s, "Microsoft ASP.NET"), None);
}

#[test]
fn settings_last_pair_wins() {
    let mut s = settings(&[("k", "1"), ("k", "2")]);
    assert_eq!(s.get(&"k".to_string()), Some(&"2".to_string()));
    s.insert("j".to_string(), "3".to_string());
    assert_eq!(s.get(&"j".to_string()), Some(&"3".to_string()));
    assert_eq!(s.get(&"k".to_string()), Some(&"2".to_string()));
    assert_eq!(Settings::new().get(&"k".to_string()), None);
}

#[test]
fn home_expansion() {
    assert_eq!(expand_home("~/a/~b", "/root"), "/root/a//rootb");
    assert_eq!(expand_home("plain", "/root"), "plain");
}

#[test]
fn wordlist_paths_prefer_arguments() {
    let s = settings(&[("main_wordlist", "/m.txt"), ("small_wordlist", "/s.txt")]);
    let mut args = Args::default();
    assert_eq!(args.main_wordlist_path(&s), Some(&"/m.txt".to_string()));
    assert_eq!(args.small_wordlist_path(&s), Some(&"/s.txt".to_string()));
    args.wordlist = Some("/given.txt".to_string());
    assert_eq!(args.main_wordlist_path(&s), Some(&"/given.txt".to_string()));
    assert_eq!(args.small_wordlist_path(&Settings::new()), None);
}

#[test]
fn targets_from_url_or_hosts_file() {
    let mut args = Args::default();
    assert_eq!(args.targets(""), Err(TargetError::Neither));
    args.url = Some("http://a/".to_string());
    assert_eq!(args.targets("ignored"), Ok(vec!["http://a/".to_string()]));
    args.hosts_file = Some("hosts.txt".to_string());
    assert_eq!(args.targets("x"), Err(TargetError::Both));
    args.url = None;
    assert_eq!(
        args.targets("http://a/\nhttp://b/\n"),
        Ok(vec!["http://a/".to_string(), "http://b/".to_string()])
    );
}

#[test]
fn default_args() {
    let a = Args::default();
    assert_eq!(a.concurrency, 40);
    assert_eq!(a.timeout, 10);
    assert_eq!(a.methods, vec!["GET".to_string()]);
    assert!(!a.auto_calibrate);
}

use chameleon::corpus::{
    add_extensions, build_corpus, sort_wordlist, split_extensions, split_lines, unique_entries,
    CorpusSource,
};
use chameleon::tech::{include_techs, is_case_insensitive, Tech};
use std::collections::HashSet;

fn set(v: Vec<String>) -> HashSet<String> {
    v.into_iter().collect()
}

fn strs(v: &[&str]) -> HashSet<String> {
    v.iter().map(|s| s.to_string()).collect()
}

#[test]
fn lines_follow_str_lines() {
    for text in ["", "\n", "a", "a\n", "a\r\nb", "a\n\nb\n", "x\r", "\r\n\r\n", "a\rb\n"] {
        let ours = split_lines(text);
        let std: Vec<String> = text.lines().map(|l| l.to_string()).collect();
        assert_eq!(ours, std, "text {:?}", text);
    }
}

#[test]
fn corpus_has_no_duplicates() {
    let v = sort_wordlist(&"admin\nlogin\nadmin\n\nlogin\n".to_string(), false);
    assert_eq!(v.len(), 3);
    assert_eq!(set(v), strs(&["admin", "login", ""]));
}

#[test]
fn corpus_keeps_case_without_hint() {
    let v = sort_wordlist(&"Admin\nadmin".to_string(), false);
    assert_eq!(set(v), strs(&["Admin", "admin"]));
}

#[test]
fn corpus_folds_case_with_hint() {
    let v = sort_wordlist(&"Admin\nadmin\nLOGIN.ASPX\n".to_string(), true);
    assert_eq!(v.len(), 2);
    assert_eq!(set(v), strs(&["admin", "login.aspx"]));
}

#[test]
fn folding_lowercase_corpus_changes_nothing() {
    let text = "admin\nlogin\nimages\n".to_string();
    assert_eq!(set(sort_wordlist(&text, true)), set(sort_wordlist(&text, false)));
    let folded: Vec<String> = sort_wordlist(&"A\nB\nb\n".to_string(), true);
    let again = sort_wordlist(&folded.join("\n"), true);
    assert_eq!(set(again), set(folded));
}

#[test]
fn corpus_is_union_of_sources() {
    let main = "admin\nlogin\n";
    let tech = "web.config\nadmin\n";
    let all = sort_wordlist(&format!("{}{}", main, tech), false);
    let mut expected = set(sort_wordlist(&main.to_string(), false));
    expected.extend(set(sort_wordlist(&tech.to_string(), false)));
    assert_eq!(set(all), expected);
}

#[test]
fn unique_entries_on_many() {
    let mut v = Vec::new();
    for i in 0..2000 {
        v.push(format!("e{}", i % 700));
    }
    let u = unique_entries(&v);
    assert_eq!(u.len(), 700);
    assert_eq!(set(u), set(v));
    assert!(unique_entries(&vec![]).is_empty());
}

#[test]
fn extension_expansion() {
    let mut text = String::new();
    add_extensions(&mut text, &"admin".to_string(), &split_extensions("php,bak"));
    assert_eq!(text, "admin.php\nadmin.bak\n");
    let lines: Vec<&str> = text.lines().collect();
    assert_eq!(lines, vec!["admin.php", "admin.bak"]);
}

#[test]
fn extension_expansion_appends_per_extension() {
    let mut text = "root\n".to_string();
    add_extensions(&mut text, &"a\nb\n".to_string(), &vec!["x".to_string(), "y".to_string()]);
    assert_eq!(text, "root\na.x\nb.x\na.y\nb.y\n");
    let mut none = "root\n".to_string();
    add_extensions(&mut none, &String::new(), &vec!["x".to_string()]);
    assert_eq!(none, "root\n");
}

#[test]
fn split_extension_list() {
    assert_eq!(split_extensions("php,bak"), vec!["php".to_string(), "bak".to_string()]);
    assert_eq!(split_extensions(""), vec![String::new()]);
}

fn tech(name: &str, category: &str) -> Tech {
    Tech { name: name.to_string(), category: category.to_string() }
}

#[test]
fn included_techs_added_once() {
    let mut t = vec![tech("PHP", "Programming languages")];
    include_techs(&mut t, "PHP,IIS,IIS,Nginx");
    assert_eq!(
        t,
        vec![tech("PHP", "Programming languages"), tech("IIS", ""), tech("Nginx", "")]
    );
}

#[test]
fn case_insensitive_servers() {
    assert!(is_case_insensitive(&vec![tech("PHP", "x"), tech("IIS", "Web servers")]));
    assert!(is_case_insensitive(&vec![tech("Microsoft ASP.NET", "Web Application Frameworks")]));
    assert!(!is_case_insensitive(&vec![tech("IIS", "")]));
    assert!(!is_case_insensitive(&vec![]));
}

#[test]
fn build_corpus_from_all_sources() {
    let main = "admin\nLogin\n".to_string();
    let small = "index\nadmin\n".to_string();
    let sources = vec![
        CorpusSource::Wordlist("web.config\nadmin\n".to_string()),
        CorpusSource::Extensions(vec!["aspx".to_string(), "ASP".to_string()]),
    ];
    let plain = build_corpus(&main, &small, &sources, false);
    assert_eq!(plain.len(), 7);
    assert_eq!(
        set(plain),
        strs(&["admin", "Login", "web.config", "index.aspx", "admin.aspx", "index.ASP", "admin.ASP"])
    );
    let folded = build_corpus(&main, &small, &sources, true);
    assert_eq!(
        set(folded),
        strs(&["admin", "login", "web.config", "index.aspx", "admin.aspx", "index.asp", "admin.asp"])
    );
    assert_eq!(set(build_corpus(&main, &small, &vec![], false)), strs(&["admin", "Login"]));
}

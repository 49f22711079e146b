use flist::args::{parse_layers, AddArgs, Command, MainArgs};
use flist::config::{Entry, FlistConfig};
use flist::link::{DirFile, Link};
use flist::project::Project;

#[test]
fn classification_follows_the_probe() {
    match Link::from_parts("/a/b".to_string(), true, true) {
        Link::Directory(s) => assert_eq!(s, "/a/b"),
        _ => panic!("expected a directory"),
    }
    match Link::from_parts("/a/b".to_string(), true, false) {
        Link::File(s) => assert_eq!(s, "/a/b"),
        _ => panic!("expected a file"),
    }
    match Link::from_parts("example.test".to_string(), false, false) {
        Link::Url(s) => assert_eq!(s, "example.test"),
        _ => panic!("expected a url"),
    }
}

#[test]
fn as_str_hands_back_the_raw_string() {
    assert_eq!(Link::File("/a/b.txt".to_string()).as_str(), "/a/b.txt");
    assert_eq!(Link::Url("u".to_string()).as_str(), "u");
}

#[test]
fn names_come_from_the_path_or_the_title() {
    let f = Link::File("/a/b/c.txt".to_string());
    assert_eq!(f.infer_name(None), "c.txt");
    let d = Link::Directory("/a/b/".to_string());
    assert_eq!(d.infer_name(None), "b");
    let u = Link::Url("http://x".to_string());
    assert_eq!(u.infer_name(Some("Title".to_string())), "Title");
    assert_eq!(u.infer_name(None), "http://x");
}

#[test]
fn a_file_is_its_own_preferred_target() {
    let f = Link::File("/a/b/c.tar.gz".to_string());
    let pf = f.preferred_file(&vec![], &vec![]).unwrap();
    assert_eq!(pf.extension, Some("gz".to_string()));
    assert_eq!(pf.file.as_str(), "/a/b/c.tar.gz");
    let no_ext = Link::File("/a/b/script".to_string());
    let pf = no_ext.preferred_file(&vec![], &vec![]).unwrap();
    assert_eq!(pf.extension, None);
    let dotfile = Link::File("/a/.bashrc".to_string());
    let pf = dotfile.preferred_file(&vec![], &vec![]).unwrap();
    assert_eq!(pf.extension, None);
}

#[test]
fn a_url_has_no_preferred_target() {
    let u = Link::Url("http://x".to_string());
    assert!(u.preferred_file(&vec![], &vec![]).is_none());
}

fn listing(paths: &[&str]) -> Vec<DirFile> {
    paths.iter().map(|p| DirFile { path: p.to_string(), is_dir: false }).collect()
}

#[test]
fn layers_pick_the_single_match() {
    let d = Link::Directory("/proj".to_string());
    let files = listing(&["/proj/a.md", "/proj/b.txt", "/proj/c.txt"]);
    let layers = vec![vec!["md".to_string()]];
    let pf = d.preferred_file(&files, &layers).unwrap();
    assert_eq!(pf.file.as_str(), "/proj/a.md");
    assert_eq!(pf.extension, Some("md".to_string()));
}

#[test]
fn an_ambiguous_layer_settles_with_no_choice() {
    // two matches in the first layer stop the search even though the second
    // layer would match exactly one file
    let d = Link::Directory("/proj".to_string());
    let files = listing(&["/proj/a.txt", "/proj/b.txt", "/proj/c.md"]);
    let layers = vec![vec!["txt".to_string()], vec!["md".to_string()]];
    assert!(d.preferred_file(&files, &layers).is_none());
}

#[test]
fn an_empty_layer_passes_to_the_next() {
    let d = Link::Directory("/proj".to_string());
    let files = listing(&["/proj/c.md"]);
    let layers = vec![vec!["txt".to_string()], vec!["md".to_string()]];
    let pf = d.preferred_file(&files, &layers).unwrap();
    assert_eq!(pf.extension, Some("md".to_string()));
}

#[test]
fn suffixes_within_a_layer_pool_their_matches() {
    let d = Link::Directory("/proj".to_string());
    let files = listing(&["/proj/a.md", "/proj/b.rst"]);
    let layers = vec![vec!["md".to_string(), "rst".to_string()]];
    assert!(d.preferred_file(&files, &layers).is_none());
}

#[test]
fn chosen_directories_stay_directories() {
    let d = Link::Directory("/proj".to_string());
    let files = vec![DirFile { path: "/proj/sub.d".to_string(), is_dir: true }];
    let layers = vec![vec!["d".to_string()]];
    let pf = d.preferred_file(&files, &layers).unwrap();
    match pf.file {
        Link::Directory(p) => assert_eq!(p, "/proj/sub.d"),
        _ => panic!("expected a directory"),
    }
}

#[test]
fn quick_launch_layers_parse() {
    let layers = parse_layers("md|pdf,txt");
    assert_eq!(layers, vec![vec!["md".to_string(), "pdf".to_string()], vec!["txt".to_string()]]);
    let layers = parse_layers("md");
    assert_eq!(layers, vec![vec!["md".to_string()]]);
    let layers = parse_layers("a,,b");
    assert_eq!(
        layers,
        vec![vec!["a".to_string()], vec!["".to_string()], vec!["b".to_string()]]
    );
}

#[test]
fn add_command_inserts_and_asks_to_save() {
    let mut p = Project::new(
        "/tmp/p".to_string(),
        FlistConfig::new(100, vec![]),
        vec![],
        vec![],
    );
    let args = MainArgs {
        project_root: "/tmp/p".to_string(),
        command: Some(Command::Add(AddArgs {
            name: "n".to_string(),
            link: "/abs/file".to_string(),
            metadata: vec!["m".to_string()],
        })),
        exit: true,
    };
    let (result, mutated) = args.apply(&mut p, 99, true, false);
    assert!(result.should_exit);
    assert!(mutated);
    assert_eq!(p.entries.len(), 1);
    assert_eq!(p.entries[0].name, "n");
    assert_eq!(p.entries[0].time_added, 99);
    match &p.entries[0].link {
        Link::File(s) => assert_eq!(s, "/abs/file"),
        _ => panic!("expected a file link"),
    }
}

#[test]
fn view_command_changes_nothing() {
    let mut p = Project::new(
        "/tmp/p".to_string(),
        FlistConfig::new(100, vec![]),
        vec![Entry {
            name: "A".to_string(),
            link: Link::Url("u".to_string()),
            time_added: 0,
            metadata: vec![],
        }],
        vec![],
    );
    let args = MainArgs { project_root: "/tmp/p".to_string(), command: None, exit: false };
    let (result, mutated) = args.apply(&mut p, 99, false, false);
    assert!(!result.should_exit);
    assert!(!mutated);
    assert_eq!(p.entries.len(), 1);
}

#[test]
fn defaults_are_what_the_config_promises() {
    let c = FlistConfig::default();
    assert_eq!(c.max_archive, 100);
    assert_eq!(c.max_archive, flist::config::DEFAULT_MAX_ARCHIVE);
    assert!(c.preferred_suffixes.is_empty());
    assert!(flist::config::is_default_max_archive(&flist::config::default_max_archive()));
}

#[test]
fn entries_compare_by_content() {
    let a = Entry {
        name: "n".to_string(),
        link: Link::Url("u".to_string()),
        time_added: 5,
        metadata: vec!["m".to_string()],
    };
    let b = a.clone();
    assert!(a.same(&b));
    let mut c = a.clone();
    c.metadata = vec!["other".to_string()];
    assert!(!a.same(&c));
    let mut d = a.clone();
    d.time_added = 6;
    assert!(!a.same(&d));
    let mut e = a.clone();
    e.link = Link::File("u".to_string());
    assert!(!a.same(&e));
}

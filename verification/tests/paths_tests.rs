use lean_goalview::paths::{
    control_sock_path, explicit_root, first_file, first_found, frame_path, goal_sock_path,
    is_lakefile, join_path, lake_command, package_root, packages_below, port_path, port_record,
    resolve_url, server_url, temporary_path, webui_dir, which_sibling, Branch, Dir,
};

fn some(s: &str) -> Option<String> {
    Some(s.to_string())
}

fn dir(path: &str, lakefile: bool) -> Dir {
    Dir { path: path.to_string(), lakefile }
}

#[test]
fn temporary_files_go_where_the_environment_says() {
    assert_eq!(goal_sock_path(&some("/var/t//")), "/var/t/lean-goalview.sock");
    assert_eq!(goal_sock_path(&None), "/tmp/lean-goalview.sock");
    assert_eq!(control_sock_path(&None), "/tmp/lean-goalview-window.sock");
    assert_eq!(port_path(&some("/")), "/lean-goalview.port");
    assert_eq!(temporary_path(&some(""), "x"), "/x");
}

#[test]
fn files_of_the_user() {
    assert_eq!(frame_path("/home/u"), "/home/u/.local/share/lean-goalview/window-frame.json");
    assert_eq!(webui_dir(&None, "/home/u"), "/home/u/.local/share/lean-goalview/webui");
    assert_eq!(webui_dir(&some("/x"), "/home/u"), "/x");
}

#[test]
fn lake_is_looked_up_in_order() {
    let args = vec!["serve".to_string(), "--".to_string()];
    assert_eq!(lake_command(&some("/l"), true, "/h"), ("/l".to_string(), args.clone()));
    assert_eq!(lake_command(&None, true, "/h"), ("lake".to_string(), args.clone()));
    assert_eq!(lake_command(&None, false, "/h"), ("/h/.elan/bin/lake".to_string(), args));
}

#[test]
fn helpers_are_looked_for_beside_the_program_first() {
    assert_eq!(
        which_sibling(&some("/opt/x"), "/bin:/usr/bin/:", "w"),
        vec!["/opt/x/w", "/bin/w", "/usr/bin/w", "w"]
    );
    assert_eq!(which_sibling(&None, "", "w"), vec!["w"]);
}

#[test]
fn joins_as_std_does() {
    for d in ["", "/", "/a", "/a/", "a"] {
        for n in ["x", "/x", "x/y"] {
            assert_eq!(
                join_path(d, n),
                std::path::Path::new(d).join(n).to_string_lossy().into_owned()
            );
        }
    }
}

#[test]
fn the_chosen_package_wins() {
    let args = vec!["x".to_string(), "--root".to_string(), "lean".to_string()];
    assert_eq!(explicit_root(&args, &some("env")), some("lean"));
    assert_eq!(explicit_root(&args[..2].to_vec(), &some("env")), some("env"));
    assert_eq!(explicit_root(&Vec::new(), &None), None);
    assert_eq!(package_root(&some("r"), &vec![dir("/a", true)], &Vec::new()), some("r"));
}

#[test]
fn the_nearest_package_above_is_used() {
    let up = vec![dir("/a/b/c", false), dir("/a/b", true), dir("/a", true)];
    assert_eq!(package_root(&None, &up, &vec!["/a/b/c/d".to_string()]), some("/a/b"));
}

#[test]
fn only_one_package_below_is_used() {
    let up = vec![dir("/a", false), dir("/", false)];
    assert_eq!(package_root(&None, &up, &vec!["/a/lean".to_string()]), some("/a/lean"));
    assert_eq!(package_root(&None, &up, &vec!["/a/x".to_string(), "/a/y".to_string()]), None);
    assert_eq!(package_root(&None, &up, &Vec::new()), None);
}

#[test]
fn lakefiles_have_two_names() {
    assert!(is_lakefile("lakefile.lean") && is_lakefile("lakefile.toml"));
    assert!(!is_lakefile("Lakefile.lean") && !is_lakefile("lakefile"));
}

#[test]
fn the_window_loads_the_recorded_port() {
    assert_eq!(resolve_url(&some("http://x/"), &some("1")), "http://x/");
    assert_eq!(resolve_url(&None, &some(" 6240\n")), "http://127.0.0.1:6240/");
    assert_eq!(resolve_url(&None, &some("65536")), "http://127.0.0.1:6237/");
    assert_eq!(resolve_url(&None, &some("x")), "http://127.0.0.1:6237/");
    assert_eq!(resolve_url(&None, &None), "http://127.0.0.1:6237/");
    assert_eq!(server_url(80), "http://127.0.0.1:80/");
    assert_eq!(resolve_url(&None, &Some(port_record(6245))), server_url(6245));
}

#[test]
fn the_first_file_is_the_helper() {
    let places = which_sibling(&some("/opt/x"), "/bin:/usr/bin", "w");
    assert_eq!(first_file(&places, &vec![true, true, false]), some("/opt/x/w"));
    assert_eq!(first_file(&places, &vec![false, false, true]), some("/usr/bin/w"));
    assert_eq!(first_file(&places, &vec![false, false, false]), None);
    assert_eq!(first_file(&places, &vec![false]), None);
    assert_eq!(first_file(&places, &vec![false, false, false, true]), None);
    assert_eq!(first_found(&vec![false, true, true]), Some(1));
    assert_eq!(first_found(&vec![false]), None);
    assert_eq!(first_found(&Vec::new()), None);
}

#[test]
fn a_scan_finds_packages_on_two_levels() {
    let branches = vec![
        Branch { dir: dir("/a/docs", false), inside: vec![dir("/a/docs/x", false)] },
        Branch { dir: dir("/a/lean", true), inside: vec![dir("/a/lean/y", true)] },
        Branch { dir: dir("/a/more", false), inside: vec![dir("/a/more/z", true)] },
    ];
    assert_eq!(packages_below(&branches), vec!["/a/lean", "/a/lean/y", "/a/more/z"]);
    assert!(packages_below(&Vec::new()).is_empty());
}

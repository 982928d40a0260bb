use cosmic_edit::project::ProjectNode;
use cosmic_edit::project_tree::{
    add_project, close_folder, close_project, insert_children, nav_target, reload_targets, remove_project, select,
    subtree_end_index, NavSelect, NavTarget, TreeEntry,
};
use cosmic_edit::watch::{watch_changes, watch_list};

fn folder(path: &str, open: bool, root: bool) -> ProjectNode {
    let name = path.rsplit('/').next().unwrap().to_string();
    ProjectNode::Folder { name, path: path.to_string(), open, root }
}

fn file(path: &str) -> ProjectNode {
    let name = path.rsplit('/').next().unwrap().to_string();
    ProjectNode::File { name, path: path.to_string() }
}

fn row(node: ProjectNode, indent: u16) -> TreeEntry {
    TreeEntry { node, indent }
}

/// Two projects: /p (with /p/src open, holding main.rs) and /q.
fn tree() -> Vec<TreeEntry> {
    vec![
        row(folder("/p", true, true), 0),
        row(folder("/p/src", true, false), 1),
        row(file("/p/src/main.rs"), 2),
        row(file("/p/README"), 1),
        row(folder("/q", true, true), 0),
        row(file("/q/x"), 1),
    ]
}

#[test]
fn subtree_ends() {
    let t = tree();
    assert_eq!(subtree_end_index(&t, 0), 4);
    assert_eq!(subtree_end_index(&t, 1), 3);
    assert_eq!(subtree_end_index(&t, 2), 3);
    assert_eq!(subtree_end_index(&t, 4), 6);
}

#[test]
fn closing_a_folder_hides_its_contents() {
    let mut t = tree();
    close_folder(&mut t, 1);
    assert_eq!(t.len(), 5);
    assert_eq!(t[1], row(folder("/p/src", false, false), 1));
    assert_eq!(t[2], row(file("/p/README"), 1));
}

#[test]
fn selecting_rows() {
    let mut t = tree();
    assert_eq!(select(&mut t, 2), NavSelect::OpenFile("/p/src/main.rs".to_string()));
    assert_eq!(t, tree());
    assert_eq!(select(&mut t, 1), NavSelect::FolderClosed);
    assert_eq!(t.len(), 5);
    assert_eq!(
        select(&mut t, 1),
        NavSelect::OpenFolder { path: "/p/src".to_string(), position: 2, indent: 2 }
    );
    assert_eq!(t[1].node, folder("/p/src", true, false));
    insert_children(&mut t, 2, 2, vec![file("/p/src/lib.rs"), file("/p/src/main.rs")]);
    assert_eq!(t[2], row(file("/p/src/lib.rs"), 2));
    assert_eq!(t[3], row(file("/p/src/main.rs"), 2));
    assert_eq!(t[4], row(file("/p/README"), 1));
}

#[test]
fn open_then_close_restores_the_tree() {
    let mut t = tree();
    close_folder(&mut t, 1);
    let closed = t.clone();
    if let NavSelect::OpenFolder { position, indent, .. } = select(&mut t, 1) {
        insert_children(&mut t, position, indent, vec![file("/p/src/a"), file("/p/src/b")]);
    } else {
        panic!("expected the folder to open");
    }
    close_folder(&mut t, 1);
    assert_eq!(t, closed);
}

#[test]
fn closing_projects() {
    let mut t = tree();
    close_project(&mut t, "/p");
    assert_eq!(t, vec![row(folder("/q", true, true), 0), row(file("/q/x"), 1)]);
    let mut u = tree();
    close_project(&mut u, "/q");
    assert_eq!(u.len(), 4);
    let mut v = tree();
    close_project(&mut v, "/nothing");
    assert_eq!(v, tree());
}

#[test]
fn project_list() {
    let mut projects = Vec::new();
    assert!(add_project(&mut projects, "p".to_string(), "/p".to_string()));
    assert!(add_project(&mut projects, "q".to_string(), "/q".to_string()));
    assert!(!add_project(&mut projects, "p again".to_string(), "/p/".to_string()));
    assert_eq!(projects.len(), 2);
    let mut t = tree();
    assert_eq!(remove_project(&mut projects, &mut t, 0), Some(("p".to_string(), "/p".to_string())));
    assert_eq!(t.len(), 2);
    assert_eq!(remove_project(&mut projects, &mut t, 5), None);
    assert_eq!(projects, vec![("q".to_string(), "/q".to_string())]);
}

#[test]
fn finding_the_active_file() {
    let mut t = tree();
    assert_eq!(nav_target(&t, "/p/src/main.rs"), NavTarget::Select(2));
    close_folder(&mut t, 1);
    assert_eq!(nav_target(&t, "/p/src/main.rs"), NavTarget::Expand(1));
    assert_eq!(nav_target(&t, "/elsewhere/a"), NavTarget::NotFound);
}

#[test]
fn folders_to_reload() {
    let t = tree();
    let events = vec!["/p/src/new.rs".to_string(), "/q".to_string()];
    assert_eq!(reload_targets(&t, &events), vec![1, 4]);
    assert_eq!(reload_targets(&t, &vec!["/p/src/deep/x".to_string()]), Vec::<usize>::new());
}

#[test]
fn watched_paths() {
    let projects = vec![("p".to_string(), "/p".to_string())];
    let files = vec!["/p/a.rs".to_string(), "/etc/hosts".to_string(), "/etc/hosts".to_string()];
    let list = watch_list(&projects, &files);
    assert_eq!(list, vec![("/p".to_string(), true), ("/etc/hosts".to_string(), false)]);
    let (unwatch, watch) = watch_changes(&list, &vec![("/p".to_string(), true), ("/tmp/n".to_string(), false)]);
    assert_eq!(unwatch, vec!["/etc/hosts".to_string()]);
    assert_eq!(watch, vec![("/tmp/n".to_string(), false)]);
    let (none_gone, none_new) = watch_changes(&list, &list);
    assert!(none_gone.is_empty() && none_new.is_empty());
}

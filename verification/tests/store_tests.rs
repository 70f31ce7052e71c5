use collab_core::store::{create_initial_data, DocumentStore};

#[test]
fn seed_data_shape() {
    let store = create_initial_data();
    let projects = store
        .list_projects(&"public_room".to_string())
        .expect("the public room is seeded");
    assert_eq!(projects.len(), 2);

    assert_eq!(projects[0].id, 1);
    assert_eq!(projects[0].name, "Demo Website");
    assert_eq!(projects[0].files.len(), 3);
    assert_eq!(projects[0].files[0].id, 1);
    assert_eq!(projects[0].files[0].name, "index.html");
    assert_eq!(
        projects[0].files[0].content,
        "<h1>Hello, World!</h1>\n<p>Edit this to see the live preview update.</p>\n<script src=\"script.js\"></script>"
    );
    assert_eq!(projects[0].files[1].id, 2);
    assert_eq!(projects[0].files[1].name, "style.css");
    assert_eq!(
        projects[0].files[1].content,
        "h1 {\n  color: steelblue;\n  font-family: sans-serif;\n}"
    );
    assert_eq!(projects[0].files[2].id, 3);
    assert_eq!(projects[0].files[2].name, "script.js");
    assert_eq!(
        projects[0].files[2].content,
        "console.log('Hello from the script!');\nalert('This is a test.');"
    );

    assert_eq!(projects[1].id, 2);
    assert_eq!(projects[1].name, "Another Project");
    assert_eq!(projects[1].files.len(), 2);
    assert_eq!(projects[1].files[0].id, 4);
    assert_eq!(projects[1].files[0].name, "README.md");
    assert_eq!(
        projects[1].files[0].content,
        "# Another Project\n\nThis is a simple markdown file."
    );
    assert_eq!(projects[1].files[1].id, 5);
    assert_eq!(projects[1].files[1].name, "data.json");
    assert_eq!(
        projects[1].files[1].content,
        "{\n  \"key\": \"value\",\n  \"is_test\": true\n}"
    );
}

#[test]
fn file_tree_unknown_space_not_found() {
    let store = create_initial_data();
    assert!(store.list_projects(&"no_such_room".to_string()).is_none());
}

#[test]
fn get_file_finds_every_seeded_id() {
    let store = create_initial_data();
    let names = ["index.html", "style.css", "script.js", "README.md", "data.json"];
    for (i, expected) in names.iter().enumerate() {
        let f = store.get_file(i as i32 + 1).expect("seeded id present");
        assert_eq!(f.id, i as i32 + 1);
        assert_eq!(&f.name, expected);
    }
    assert!(store.get_file(6).is_none());
    assert!(store.get_file(0).is_none());
}

#[test]
fn save_then_get_round_trips() {
    let mut store = create_initial_data();
    let ok = store.save_file(1, "fresh content".to_string());
    assert!(ok);
    let f = store.get_file(1).expect("file 1 still present");
    assert_eq!(f.id, 1);
    assert_eq!(f.name, "index.html");
    assert_eq!(f.content, "fresh content");
}

#[test]
fn save_changes_only_the_addressed_file() {
    let mut store = create_initial_data();
    assert!(store.save_file(4, "rewritten".to_string()));
    assert_eq!(store.get_file(4).unwrap().content, "rewritten");
    assert_eq!(
        store.get_file(5).unwrap().content,
        "{\n  \"key\": \"value\",\n  \"is_test\": true\n}"
    );
    assert_eq!(store.get_file(4).unwrap().name, "README.md");
}

#[test]
fn save_unknown_id_not_found_and_unchanged() {
    let mut store = create_initial_data();
    let ok = store.save_file(99, "never lands".to_string());
    assert!(!ok);
    let projects = store.list_projects(&"public_room".to_string()).unwrap();
    assert_eq!(projects.len(), 2);
    for p in &projects {
        for f in &p.files {
            assert_ne!(f.content, "never lands");
        }
    }
}

#[test]
fn file_ids_increase_across_projects_and_spaces() {
    let mut store = DocumentStore::new();
    assert!(store.add_space("alpha".to_string()));
    assert!(store.add_project(&"alpha".to_string(), 1, "first".to_string()));
    assert!(store.add_project(&"alpha".to_string(), 2, "second".to_string()));
    assert!(store.add_space("beta".to_string()));
    assert!(store.add_project(&"beta".to_string(), 1, "third".to_string()));

    let a = store
        .add_file(&"alpha".to_string(), 1, "a.txt".to_string(), "a".to_string())
        .unwrap();
    let b = store
        .add_file(&"alpha".to_string(), 2, "b.txt".to_string(), "b".to_string())
        .unwrap();
    let c = store
        .add_file(&"beta".to_string(), 1, "c.txt".to_string(), "c".to_string())
        .unwrap();
    let d = store
        .add_file(&"alpha".to_string(), 1, "d.txt".to_string(), "d".to_string())
        .unwrap();

    assert_eq!(a, 1);
    assert_eq!(b, 2);
    assert_eq!(c, 3);
    assert_eq!(d, 4);
    assert!(a < b && b < c && c < d);

    let ids: Vec<i32> = [a, b, c, d].to_vec();
    for i in 0..ids.len() {
        for j in 0..ids.len() {
            if i != j {
                assert_ne!(ids[i], ids[j]);
            }
        }
    }
}

#[test]
fn construction_rejects_duplicates_and_missing_targets() {
    let mut store = DocumentStore::new();
    assert!(store.add_space("alpha".to_string()));
    assert!(!store.add_space("alpha".to_string()));
    assert!(store.add_project(&"alpha".to_string(), 1, "first".to_string()));
    assert!(!store.add_project(&"alpha".to_string(), 1, "again".to_string()));
    assert!(!store.add_project(&"missing".to_string(), 1, "nowhere".to_string()));
    assert!(store
        .add_file(&"missing".to_string(), 1, "x".to_string(), "y".to_string())
        .is_none());
    assert!(store
        .add_file(&"alpha".to_string(), 9, "x".to_string(), "y".to_string())
        .is_none());
}

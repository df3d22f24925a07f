use harbor::check_git::{
    git_url_to_name, is_in_valid_dir, is_rust_file, is_valid_file, safety_infractions,
};
use harbor::checks::{Safety, SourceNode, SourceUnit};

#[test]
fn test_git_url_to_name() {
    assert!("harbor" == git_url_to_name(&String::from("https://github.com/alexkehayias/harbor")));
}

#[test]
fn test_is_rust_file() {
    assert!(is_rust_file(&"src/main.rs"));
    assert!(!is_rust_file(&"src/main.js"));
}

#[test]
fn test_is_in_valid_dir() {
    assert!(is_in_valid_dir(&"src/main.rs"));
    assert!(!is_in_valid_dir(&"benches/main.rs"));
    assert!(!is_in_valid_dir(&"examples/main.rs"));
    assert!(!is_in_valid_dir(&"tests/test.rs"));
    assert!(!is_in_valid_dir(&"target/test.rs"));
}

#[test]
fn test_is_valid_file() {
    assert!(is_valid_file(&"src/main.rs"));
    assert!(!is_valid_file(&"src/main.js"));
    assert!(!is_valid_file(&"tests/test.rs"));
}

#[test]
fn test_safety_infractions() {
    // A checkout whose eligible files hold no escape-marked construct
    // yields no infraction.
    let clean = SourceNode::Other {
        nodes: vec![SourceNode::Function {
            safety: Safety::Normal,
            loc: "lib.rs:1:0: 3:1".to_string(),
            nodes: vec![],
        }],
    };
    let units = vec![SourceUnit { path: "src/lib.rs".to_string(), root: clean }];
    let actual = safety_infractions(&units);
    assert!(actual.len() == 0);
}

#[test]
fn url_name_is_lowercased() {
    assert_eq!(
        git_url_to_name(&String::from("https://github.com/Someone/HARBOR")),
        "harbor"
    );
}

#[test]
fn url_without_slash_is_whole_name() {
    assert_eq!(git_url_to_name(&String::from("Harbor")), "harbor");
}

fn unsafe_block_unit(path: &str) -> SourceUnit {
    let block = SourceNode::Block {
        safety: Safety::Unsafe,
        loc: format!("{}:8:4: 10:5", path),
        nodes: vec![],
    };
    let root = SourceNode::Other {
        nodes: vec![SourceNode::Function {
            safety: Safety::Normal,
            loc: format!("{}:7:0: 11:1", path),
            nodes: vec![block],
        }],
    };
    SourceUnit { path: path.to_string(), root }
}

#[test]
fn eligibility_filtering() {
    // Of these paths only src/lib.rs is eligible; an unsafe block placed
    // only in examples/demo.rs contributes nothing to the final set.
    assert!(is_valid_file("src/lib.rs"));
    assert!(!is_valid_file("examples/demo.rs"));
    assert!(!is_valid_file("tests/t.rs"));
    assert!(!is_valid_file("benches/b.rs"));

    let clean_root = SourceNode::Other { nodes: vec![] };
    let units = vec![
        SourceUnit { path: "src/lib.rs".to_string(), root: clean_root },
        unsafe_block_unit("examples/demo.rs"),
        unsafe_block_unit("tests/t.rs"),
        unsafe_block_unit("benches/b.rs"),
    ];
    let found = safety_infractions(&units);
    assert_eq!(found.len(), 0);
}

#[test]
fn order_independence() {
    let u1 = unsafe_block_unit("src/a.rs");
    let u2 = unsafe_block_unit("src/b.rs");
    let u3 = unsafe_block_unit("src/c.rs");

    let forward = vec![
        unsafe_block_unit("src/a.rs"),
        unsafe_block_unit("src/b.rs"),
        unsafe_block_unit("src/c.rs"),
    ];
    let backward = vec![u3, u2, u1];

    let f1 = safety_infractions(&forward);
    let f2 = safety_infractions(&backward);
    assert_eq!(f1.len(), f2.len());
    for item in f1.items().iter() {
        assert!(f2.items().iter().any(|other| other == item));
    }
}

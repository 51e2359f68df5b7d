use epistle::collect::extract_output_files;
use epistle::filemap::FileMap;
use epistle::tree::MdNode;

fn code(meta: Option<&str>, value: &str) -> MdNode {
    MdNode::Code { meta: meta.map(|m| m.to_string()), value: value.to_string() }
}

fn container(children: Vec<MdNode>) -> MdNode {
    MdNode::Container { children }
}

#[test]
fn single_block_verbatim() {
    let tree = container(vec![code(Some("rust file:out.txt"), "A")]);
    let mut map = FileMap::new();
    extract_output_files(&tree, &mut map);
    assert_eq!(map.len(), 1);
    assert_eq!(map.get("out.txt").unwrap().as_str(), "A");
}

#[test]
fn duplicate_destination_merges() {
    let tree = container(vec![
        code(Some("file:out.txt"), "A"),
        code(Some("file:out.txt"), "B"),
    ]);
    let mut map = FileMap::new();
    extract_output_files(&tree, &mut map);
    assert_eq!(map.len(), 1);
    assert_eq!(map.get("out.txt").unwrap().as_str(), "A\nB\n");
}

#[test]
fn triple_duplicate_appends_each() {
    let tree = container(vec![
        code(Some("file:out.txt"), "A"),
        code(Some("file:out.txt"), "B"),
        code(Some("file:out.txt"), "C"),
    ]);
    let mut map = FileMap::new();
    extract_output_files(&tree, &mut map);
    assert_eq!(map.get("out.txt").unwrap().as_str(), "A\nB\n\nC\n");
}

#[test]
fn nested_block_found() {
    let tree = container(vec![container(vec![container(vec![container(vec![code(
        Some("file:nested/out.txt"),
        "deep",
    )])])])]);
    let mut map = FileMap::new();
    extract_output_files(&tree, &mut map);
    assert_eq!(map.len(), 1);
    assert_eq!(map.get("nested/out.txt").unwrap().as_str(), "deep");
}

#[test]
fn document_order_kept() {
    let tree = container(vec![
        container(vec![code(Some("file:b.txt"), "B")]),
        code(Some("file:a.txt"), "A"),
        container(vec![code(Some("file:c.txt"), "C")]),
    ]);
    let mut map = FileMap::new();
    extract_output_files(&tree, &mut map);
    assert_eq!(map.len(), 3);
    assert_eq!(map.path_at(0).as_str(), "b.txt");
    assert_eq!(map.path_at(1).as_str(), "a.txt");
    assert_eq!(map.path_at(2).as_str(), "c.txt");
    assert_eq!(map.content_at(1).as_str(), "A");
}

#[test]
fn blocks_without_directive_ignored() {
    let tree = container(vec![
        code(None, "no meta"),
        code(Some("rust linenos"), "no directive"),
        code(Some("file:kept.txt"), "kept"),
    ]);
    let mut map = FileMap::new();
    extract_output_files(&tree, &mut map);
    assert_eq!(map.len(), 1);
    assert_eq!(map.get("kept.txt").unwrap().as_str(), "kept");
    assert!(map.get("no meta").is_none());
}

#[test]
fn empty_container_collects_nothing() {
    let tree = container(vec![]);
    let mut map = FileMap::new();
    extract_output_files(&tree, &mut map);
    assert_eq!(map.len(), 0);
}

#[test]
fn quoted_destination_in_tree() {
    let tree = container(vec![code(Some("md file:\"a b.txt\""), "text")]);
    let mut map = FileMap::new();
    extract_output_files(&tree, &mut map);
    assert_eq!(map.get("a b.txt").unwrap().as_str(), "text");
}

#[test]
fn rerun_gives_identical_contents() {
    let tree = container(vec![
        code(Some("file:one.txt"), "1"),
        container(vec![code(Some("file:two.txt"), "2"), code(Some("file:one.txt"), "again")]),
    ]);
    let mut first = FileMap::new();
    extract_output_files(&tree, &mut first);
    let mut second = FileMap::new();
    extract_output_files(&tree, &mut second);
    assert_eq!(first.len(), second.len());
    let mut i: usize = 0;
    while i < first.len() {
        assert_eq!(first.path_at(i), second.path_at(i));
        assert_eq!(first.content_at(i), second.content_at(i));
        i += 1;
    }
    assert_eq!(first.get("one.txt").unwrap().as_str(), "1\nagain\n");
}

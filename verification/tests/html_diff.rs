use pocket_repo::html_diff::{diff, try_diff, update_patches};

#[test]
fn no_change_returns_empty() {
    let markup = r#"<div id="root"><p id="count">count: 5</p></div>"#;
    assert_eq!(diff(markup, markup), vec![]);
}

#[test]
fn leaf_id_element_changed() {
    let old = r#"<div id="root"><p id="count">count: 5</p><div id="buttons"><button>+1</button></div></div>"#;
    let new = r#"<div id="root"><p id="count">count: 6</p><div id="buttons"><button>+1</button></div></div>"#;
    let patches = diff(old, new);
    assert_eq!(patches.len(), 1);
    assert_eq!(patches[0].id, "count");
    assert!(patches[0].html.contains("count: 6"));
}

#[test]
fn non_id_element_changed_falls_back_to_parent() {
    let old = r#"<div id="root"><p id="count">count: 5</p><span>old</span></div>"#;
    let new = r#"<div id="root"><p id="count">count: 6</p><span>new</span></div>"#;
    let patches = diff(old, new);
    assert_eq!(patches.len(), 1);
    assert_eq!(patches[0].id, "root");
}

#[test]
fn multiple_leaf_changes() {
    let old = r#"<div id="root"><p id="a">old-a</p><p id="b">old-b</p></div>"#;
    let new = r#"<div id="root"><p id="a">new-a</p><p id="b">new-b</p></div>"#;
    let patches = diff(old, new);
    assert_eq!(patches.len(), 2);
    let ids: Vec<&str> = patches.iter().map(|p| p.id.as_str()).collect();
    assert!(ids.contains(&"a"));
    assert!(ids.contains(&"b"));
}

#[test]
fn only_non_id_element_changed() {
    let old = r#"<div id="root"><span>old</span></div>"#;
    let new = r#"<div id="root"><span>new</span></div>"#;
    let patches = diff(old, new);
    assert_eq!(patches.len(), 1);
    assert_eq!(patches[0].id, "root");
}

#[test]
fn deeply_nested_id_change() {
    let old = r#"<div id="root"><div id="mid"><p id="leaf">old</p></div></div>"#;
    let new = r#"<div id="root"><div id="mid"><p id="leaf">new</p></div></div>"#;
    let patches = diff(old, new);
    assert_eq!(patches.len(), 1);
    assert_eq!(patches[0].id, "leaf");
}

#[test]
fn no_id_elements_returns_empty() {
    let old = r#"<div><span>old</span></div>"#;
    let new = r#"<div><span>new</span></div>"#;
    let patches = diff(old, new);
    assert_eq!(patches, vec![]);
}

#[test]
fn attribute_change_detected() {
    let old = r#"<div id="root"><a id="link" href="old.html">click</a></div>"#;
    let new = r#"<div id="root"><a id="link" href="new.html">click</a></div>"#;
    let patches = diff(old, new);
    assert_eq!(patches.len(), 1);
    assert_eq!(patches[0].id, "link");
    assert!(patches[0].html.contains("new.html"));
}

#[test]
fn class_change_detected() {
    let old = r#"<div id="root"><div id="box" class="red">hello</div></div>"#;
    let new = r#"<div id="root"><div id="box" class="blue">hello</div></div>"#;
    let patches = diff(old, new);
    assert_eq!(patches.len(), 1);
    assert_eq!(patches[0].id, "box");
}

#[test]
fn one_of_multiple_siblings_changed() {
    let old = r#"<div id="root"><p id="a">same</p><p id="b">old</p><p id="c">same</p></div>"#;
    let new = r#"<div id="root"><p id="a">same</p><p id="b">new</p><p id="c">same</p></div>"#;
    let patches = diff(old, new);
    assert_eq!(patches.len(), 1);
    assert_eq!(patches[0].id, "b");
}

#[test]
fn child_element_added() {
    let old = r#"<div id="root"><ul id="list"><li>item1</li></ul></div>"#;
    let new = r#"<div id="root"><ul id="list"><li>item1</li><li>item2</li></ul></div>"#;
    let patches = diff(old, new);
    assert_eq!(patches.len(), 1);
    assert_eq!(patches[0].id, "list");
}

#[test]
fn child_element_removed() {
    let old = r#"<div id="root"><ul id="list"><li>item1</li><li>item2</li></ul></div>"#;
    let new = r#"<div id="root"><ul id="list"><li>item1</li></ul></div>"#;
    let patches = diff(old, new);
    assert_eq!(patches.len(), 1);
    assert_eq!(patches[0].id, "list");
}

#[test]
fn element_tag_changed() {
    let old = r#"<div id="root"><div id="content"><p>text</p></div></div>"#;
    let new = r#"<div id="root"><div id="content"><span>text</span></div></div>"#;
    let patches = diff(old, new);
    assert_eq!(patches.len(), 1);
    assert_eq!(patches[0].id, "content");
}

#[test]
fn id_child_changed_plus_non_id_sibling_changed_falls_back_to_parent() {
    let old = r#"<div id="root"><p id="count">5</p><span>status: ok</span></div>"#;
    let new = r#"<div id="root"><p id="count">6</p><span>status: error</span></div>"#;
    let patches = diff(old, new);
    assert_eq!(patches.len(), 1);
    assert_eq!(patches[0].id, "root");
}

#[test]
fn id_child_unchanged_but_non_id_sibling_changed() {
    let old = r#"<div id="root"><p id="count">5</p><span>old</span></div>"#;
    let new = r#"<div id="root"><p id="count">5</p><span>new</span></div>"#;
    let patches = diff(old, new);
    assert_eq!(patches.len(), 1);
    assert_eq!(patches[0].id, "root");
}

#[test]
fn change_at_middle_level_not_leaf() {
    let old = r#"<div id="root"><div id="mid"><span>old</span><p id="leaf">same</p></div></div>"#;
    let new = r#"<div id="root"><div id="mid"><span>new</span><p id="leaf">same</p></div></div>"#;
    let patches = diff(old, new);
    assert_eq!(patches.len(), 1);
    assert_eq!(patches[0].id, "mid");
}

#[test]
fn changes_at_multiple_nesting_levels() {
    let old = r#"<div id="root"><div id="mid"><p id="leaf">old</p></div><span>same</span></div>"#;
    let new = r#"<div id="root"><div id="mid"><p id="leaf">new</p></div><span>same</span></div>"#;
    let patches = diff(old, new);
    assert_eq!(patches.len(), 1);
    assert_eq!(patches[0].id, "leaf");
}

#[test]
fn empty_to_content() {
    let old = r#"<div id="root"><p id="msg"></p></div>"#;
    let new = r#"<div id="root"><p id="msg">hello</p></div>"#;
    let patches = diff(old, new);
    assert_eq!(patches.len(), 1);
    assert_eq!(patches[0].id, "msg");
}

#[test]
fn content_to_empty() {
    let old = r#"<div id="root"><p id="msg">hello</p></div>"#;
    let new = r#"<div id="root"><p id="msg"></p></div>"#;
    let patches = diff(old, new);
    assert_eq!(patches.len(), 1);
    assert_eq!(patches[0].id, "msg");
}

#[test]
fn counter_app_increment() {
    let old = r#"<div id="maudliver-root"><p id="count">count: 0</p><div id="buttons"><button data-event="Increment">+1</button> <button data-event="Decrement">-1</button></div></div>"#;
    let new = r#"<div id="maudliver-root"><p id="count">count: 1</p><div id="buttons"><button data-event="Increment">+1</button> <button data-event="Decrement">-1</button></div></div>"#;
    let patches = diff(old, new);
    assert_eq!(patches.len(), 1);
    assert_eq!(patches[0].id, "count");
    assert!(patches[0].html.contains("count: 1"));
    assert!(!patches.iter().any(|p| p.id == "buttons"));
}

#[test]
fn todo_list_add_item() {
    let old = r#"<div id="maudliver-root"><h1 id="title">TODOs</h1><ul id="items"><li>Buy milk</li></ul><p id="status">1 item</p></div>"#;
    let new = r#"<div id="maudliver-root"><h1 id="title">TODOs</h1><ul id="items"><li>Buy milk</li><li>Walk dog</li></ul><p id="status">2 items</p></div>"#;
    let patches = diff(old, new);
    assert_eq!(patches.len(), 2);
    let ids: Vec<&str> = patches.iter().map(|p| p.id.as_str()).collect();
    assert!(ids.contains(&"items"));
    assert!(ids.contains(&"status"));
    assert!(!ids.contains(&"title"));
}

#[test]
fn conditional_visibility_toggle() {
    let old = r#"<div id="maudliver-root"><div id="modal" style="display:none">hidden content</div><button id="trigger">Show</button></div>"#;
    let new = r#"<div id="maudliver-root"><div id="modal" style="display:block">hidden content</div><button id="trigger">Hide</button></div>"#;
    let patches = diff(old, new);
    assert_eq!(patches.len(), 2);
    let ids: Vec<&str> = patches.iter().map(|p| p.id.as_str()).collect();
    assert!(ids.contains(&"modal"));
    assert!(ids.contains(&"trigger"));
}

// --- further cases ---

#[test]
fn patch_carries_new_outer_html() {
    let old = r#"<div id="root"><p id="msg">a</p></div>"#;
    let new = r#"<div id="root"><p id="msg">b</p></div>"#;
    let patches = diff(old, new);
    assert_eq!(patches.len(), 1);
    assert_eq!(patches[0].html, r#"<p id="msg">b</p>"#);
}

#[test]
fn patches_follow_document_order() {
    let old = r#"<div id="root"><p id="z">1</p><p id="a">1</p></div>"#;
    let new = r#"<div id="root"><p id="z">2</p><p id="a">2</p></div>"#;
    let patches = diff(old, new);
    let ids: Vec<&str> = patches.iter().map(|p| p.id.as_str()).collect();
    assert_eq!(ids, vec!["z", "a"]);
}

#[test]
fn unchanged_markup_is_always_diffable() {
    let markup = r#"<div id="1bad">x</div>"#;
    assert_eq!(try_diff(markup, markup), Some(vec![]));
}

#[test]
fn non_identifier_id_is_not_looked_up() {
    let old = r#"<div id="root"><p id="a b">1</p></div>"#;
    let new = r#"<div id="root"><p id="a b">2</p></div>"#;
    assert_eq!(try_diff(old, new), None);
}

#[test]
fn cyclic_id_lookup_is_refused() {
    let old = r#"<div id="a"><div id="b"><div id="a">x</div></div></div>"#;
    let new = r#"<div id="a"><div id="b"><div id="a">y</div></div></div>"#;
    assert_eq!(try_diff(old, new), None);
}

#[test]
fn dash_and_non_ascii_ids_are_looked_up() {
    let old = r#"<div id="root"><p id="-é">1</p><p id="ok">same</p></div>"#;
    let new = r#"<div id="root"><p id="-é">2</p><p id="ok">same</p></div>"#;
    let patches = try_diff(old, new).unwrap();
    assert_eq!(patches.len(), 1);
    assert_eq!(patches[0].id, "-é");
    assert_eq!(patches[0].html, r#"<p id="-é">2</p>"#);
}

#[test]
fn unlooked_up_odd_ids_do_not_block_the_diff() {
    let old = r#"<div id="root"><p id="count">1</p><div id="keep"><span id="a b">x</span></div></div>"#;
    let new = r#"<div id="root"><p id="count">2</p><div id="keep"><span id="a b">x</span></div></div>"#;
    let patches = try_diff(old, new).unwrap();
    assert_eq!(patches.len(), 1);
    assert_eq!(patches[0].id, "count");
}

#[test]
fn undiffable_update_replaces_the_root() {
    let old = r#"<div id="root"><p id="a b">1</p></div>"#;
    let new = r#"<div id="root"><p id="a b">2</p></div>"#;
    let patches = update_patches(old, new);
    assert_eq!(patches.len(), 1);
    assert_eq!(patches[0].id, "root");
    assert_eq!(patches[0].html, new);
}

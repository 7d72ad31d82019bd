use asset_catalog::asset::{AssetData, AssetEntry};
use asset_catalog::manager::AssetManager;
use asset_catalog::query::{
    classify_word, meets, meets_all, parse_query, search_entries, Condition,
};
use asset_catalog::tags::{decode_tags, encode_tags, tags_or_none, text_or_empty_array};

fn chars(s: &str) -> Vec<char> {
    s.chars().collect()
}

fn general(s: &str) -> Condition {
    Condition::General(chars(s))
}

fn tag(s: &str) -> Condition {
    Condition::Tag(chars(s))
}

fn strings(v: &[&str]) -> Vec<String> {
    v.iter().map(|s| s.to_string()).collect()
}

fn library() -> AssetManager {
    let mut manager = AssetManager::new();
    assert_eq!(
        manager.add_asset(
            "Wizard".to_string(),
            "/assets/chars/wizard".to_string(),
            String::new(),
            strings(&["fantasy"]),
        ),
        Ok(1)
    );
    assert_eq!(
        manager.add_asset(
            "Robot".to_string(),
            "/assets/chars/robot".to_string(),
            String::new(),
            strings(&["scifi"]),
        ),
        Ok(2)
    );
    manager
}

fn found(manager: &mut AssetManager, query: &str) -> Vec<String> {
    manager.search(query, 1).items.iter().map(|e| e.data.name.clone()).collect()
}

#[test]
fn every_term_of_a_search_has_to_match() {
    let mut manager = library();
    assert_eq!(found(&mut manager, "wizard tag:fantasy"), vec!["Wizard"]);
    assert_eq!(found(&mut manager, "tag:fantasy tag:scifi"), Vec::<String>::new());
    assert_eq!(found(&mut manager, ""), Vec::<String>::new());
    assert_eq!(found(&mut manager, "   \t "), Vec::<String>::new());
    let page = manager.search("", 1);
    assert_eq!(page.total_pages, 0);
    assert_eq!(page.page_number, 1);
    assert_eq!(page.page_size, 50);
}

#[test]
fn terms_match_by_substring_without_case() {
    let mut manager = library();
    assert_eq!(found(&mut manager, "WIZ"), vec!["Wizard"]);
    assert_eq!(found(&mut manager, "o"), vec!["Robot"]);
    assert_eq!(found(&mut manager, "chars"), vec!["Robot", "Wizard"]);
    assert_eq!(found(&mut manager, "assets/CHARS r"), vec!["Robot", "Wizard"]);
    assert_eq!(found(&mut manager, "scifi"), vec!["Robot"]);
    assert_eq!(found(&mut manager, "tag:SCI"), vec!["Robot"]);
    assert_eq!(found(&mut manager, "tag:wizard"), Vec::<String>::new());
    assert_eq!(found(&mut manager, "tag:chars"), Vec::<String>::new());
    assert_eq!(found(&mut manager, "wizard robot"), Vec::<String>::new());
    assert_eq!(found(&mut manager, "%"), Vec::<String>::new());
    assert_eq!(found(&mut manager, "_"), Vec::<String>::new());
    assert_eq!(found(&mut manager, "w_z"), Vec::<String>::new());
}

#[test]
fn tags_are_matched_in_their_serialised_form() {
    let mut manager = library();
    assert_eq!(found(&mut manager, "tag:[\"fantasy\"]"), vec!["Wizard"]);
    assert_eq!(found(&mut manager, "tag:\"sci"), vec!["Robot"]);
    assert_eq!(found(&mut manager, "tag:[\""), vec!["Robot", "Wizard"]);
    assert_eq!(found(&mut manager, "tag:,"), Vec::<String>::new());
    assert_eq!(
        manager.add_asset("Both".to_string(), "/b".to_string(), String::new(), strings(&["x", "y"])),
        Ok(3)
    );
    assert_eq!(found(&mut manager, "tag:,"), vec!["Both"]);
    assert_eq!(found(&mut manager, "tag:\"x\",\"y\""), vec!["Both"]);
    assert_eq!(found(&mut manager, "\"]"), vec!["Both", "Robot", "Wizard"]);
}

#[test]
fn search_results_are_paged_like_the_listing() {
    let mut manager = AssetManager::new();
    for i in 0..7 {
        let kind = if i % 2 == 0 { "even" } else { "odd" };
        assert!(manager
            .add_asset(format!("item {}", i), format!("/{}/{}", kind, i), String::new(), Vec::new())
            .is_ok());
    }
    manager.set_page_size(3);
    let first = manager.search("ITEM", 1);
    assert_eq!(first.items.len(), 3);
    assert_eq!(first.total_pages, 3);
    let third = manager.search("item", 3);
    assert_eq!(third.items.len(), 1);
    assert_eq!(third.items[0].data.name, "item 6");
    assert_eq!(third.page_number, 3);
    let beyond = manager.search("item", 4);
    assert!(beyond.items.is_empty());
    assert_eq!(beyond.total_pages, 3);
    let even = manager.search("/even/", 2);
    assert_eq!(even.total_pages, 2);
    assert_eq!(even.items.len(), 1);
    assert_eq!(even.items[0].data.name, "item 6");
    let clamped = manager.search("/odd/", -4);
    assert_eq!(clamped.page_number, 1);
    assert_eq!(clamped.total_pages, 1);
    assert_eq!(
        clamped.items.iter().map(|e| e.id).collect::<Vec<i64>>(),
        vec![2, 4, 6]
    );
}

#[test]
fn query_words_become_conditions() {
    assert_eq!(
        parse_query("wizard tag:fantasy tag: TAG:x  tag:tag:y"),
        vec![general("wizard"), tag("fantasy"), general("tag:"), general("TAG:x"), tag("tag:y")]
    );
    assert_eq!(parse_query(""), Vec::<Condition>::new());
    assert_eq!(parse_query(" \n "), Vec::<Condition>::new());
    assert_eq!(classify_word(&chars("tag:a")), tag("a"));
    assert_eq!(classify_word(&chars("tag")), general("tag"));
    assert_eq!(classify_word(&chars("xtag:a")), general("xtag:a"));
}

#[test]
fn one_condition_on_plain_texts() {
    let name = chars("Wizard");
    let path = chars("/assets/wizard");
    let tags = chars("[\"fantasy\"]");
    assert!(meets(&name, &path, &tags, &general("wiz")));
    assert!(meets(&name, &path, &tags, &general("ASSETS")));
    assert!(meets(&name, &path, &tags, &general("fantasy")));
    assert!(!meets(&name, &path, &tags, &general("robot")));
    assert!(meets(&name, &path, &tags, &tag("fant")));
    assert!(!meets(&name, &path, &tags, &tag("wiz")));
    assert!(!meets(&name, &path, &tags, &tag("assets")));
    assert!(meets(&name, &path, &tags, &tag("")));
}

#[test]
fn search_entries_counts_all_matches() {
    let entry = |id: i64, name: &str, tags: &[&str]| AssetEntry {
        id,
        data: AssetData {
            name: name.to_string(),
            path: format!("/p/{}", id),
            image_path: None,
            tags: strings(tags),
        },
    };
    let entries = vec![
        entry(1, "alpha", &["x"]),
        entry(2, "beta", &["y"]),
        entry(3, "alphabet", &["x", "y"]),
        entry(4, "gamma", &[]),
        entry(5, "ALPHA 2", &["y"]),
    ];
    let ids = |r: &(Vec<AssetEntry>, usize)| r.0.iter().map(|e| e.id).collect::<Vec<i64>>();
    let alpha = vec![general("alpha")];
    let r = search_entries(&entries, &alpha, 0, 10);
    assert_eq!((ids(&r), r.1), (vec![1, 3, 5], 3));
    let r = search_entries(&entries, &alpha, 1, 1);
    assert_eq!((ids(&r), r.1), (vec![3], 3));
    let r = search_entries(&entries, &alpha, 2, 5);
    assert_eq!((ids(&r), r.1), (vec![5], 3));
    let r = search_entries(&entries, &alpha, 3, 5);
    assert_eq!((ids(&r), r.1), (vec![], 3));
    let r = search_entries(&entries, &alpha, -1, 2);
    assert_eq!((ids(&r), r.1), (vec![1, 3], 3));
    let r = search_entries(&entries, &alpha, 0, 0);
    assert_eq!((ids(&r), r.1), (vec![], 3));
    let r = search_entries(&entries, &alpha, 0, -2);
    assert_eq!((ids(&r), r.1), (vec![], 3));
    let r = search_entries(&entries, &alpha, i64::MAX, i64::MAX);
    assert_eq!((ids(&r), r.1), (vec![], 3));
    let both = vec![general("alpha"), tag("y")];
    let r = search_entries(&entries, &both, 0, 10);
    assert_eq!((ids(&r), r.1), (vec![3, 5], 2));
    let r = search_entries(&entries, &Vec::new(), 0, 10);
    assert_eq!((ids(&r), r.1), (vec![], 0));
    assert!(meets_all(&entries[2], &both));
    assert!(!meets_all(&entries[0], &both));
    assert!(meets_all(&entries[0], &Vec::new()));
}

#[test]
fn tags_are_serialised_as_a_json_array() {
    assert_eq!(encode_tags(&Vec::new()), "[]");
    assert_eq!(encode_tags(&strings(&["fantasy"])), "[\"fantasy\"]");
    assert_eq!(encode_tags(&strings(&["a", "b c"])), "[\"a\",\"b c\"]");
    assert_eq!(encode_tags(&strings(&["q\"uo\\te", "né\n"])), "[\"q\\\"uo\\\\te\",\"né\\n\"]");
    assert_eq!(text_or_empty_array(None), "[]");
    assert_eq!(text_or_empty_array(Some("[1]".to_string())), "[1]");
}

#[test]
fn stored_tags_are_read_leniently() {
    let read = |t: Option<&str>| decode_tags(&t.map(|s| s.to_string()));
    assert_eq!(read(Some("[\"a\",\"b c\"]")), strings(&["a", "b c"]));
    assert_eq!(read(Some(" [ \"x\\u0041\\n\" ] ")), strings(&["xA\n"]));
    assert_eq!(read(Some("[]")), Vec::<String>::new());
    assert_eq!(read(None), Vec::<String>::new());
    assert_eq!(read(Some("")), Vec::<String>::new());
    assert_eq!(read(Some("fantasy")), Vec::<String>::new());
    assert_eq!(read(Some("[\"a\"")), Vec::<String>::new());
    assert_eq!(read(Some("[1,2]")), Vec::<String>::new());
    assert_eq!(read(Some("\"a\"")), Vec::<String>::new());
    assert_eq!(read(Some("null")), Vec::<String>::new());
    assert_eq!(tags_or_none(None), Vec::<String>::new());
    assert_eq!(tags_or_none(Some(strings(&["k"]))), strings(&["k"]));
}

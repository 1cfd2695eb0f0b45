use phira_data::favorites::{Favorites, DEFAULT_FAVORITES_KEY};

fn names(list: &[&str]) -> Vec<String> {
    list.iter().map(|s| s.to_string()).collect()
}

fn ready() -> Favorites {
    let mut favorites = Favorites::new();
    favorites.ensure_default();
    favorites
}

#[test]
fn new_favorites_hold_nothing() {
    let favorites = Favorites::new();
    assert!(favorites.all_folder_names().is_empty());
    assert!(favorites.custom_folder_names().is_empty());
    assert!(favorites.cover_folders().is_empty());
    assert!(!favorites.is_in_default("custom/a.zip"));
    assert!(!favorites.is_favorited("custom/a.zip"));
    assert!(favorites.get_paths(DEFAULT_FAVORITES_KEY).is_empty());
}

#[test]
fn default_favorites_are_new_favorites() {
    let favorites = Favorites::default();
    assert!(favorites.all_folder_names().is_empty());
    assert!(favorites.cover_folders().is_empty());
}

#[test]
fn the_reserved_name_is_default() {
    assert_eq!(DEFAULT_FAVORITES_KEY, "default");
}

#[test]
fn ensure_default_makes_the_reserved_folder_once() {
    let mut favorites = Favorites::new();
    favorites.ensure_default();
    assert_eq!(favorites.all_folder_names(), names(&["default"]));
    favorites.add_to(DEFAULT_FAVORITES_KEY, "custom/a.zip");
    favorites.ensure_default();
    assert_eq!(favorites.all_folder_names(), names(&["default"]));
    assert_eq!(favorites.get_paths(DEFAULT_FAVORITES_KEY), names(&["custom/a.zip"]));
}

#[test]
fn add_to_appends_in_order_and_only_once() {
    let mut favorites = ready();
    favorites.add_to("default", "custom/a.zip");
    favorites.add_to("default", "download/7");
    favorites.add_to("default", "custom/a.zip");
    assert_eq!(favorites.get_paths("default"), names(&["custom/a.zip", "download/7"]));
    assert!(favorites.is_in_default("custom/a.zip"));
    assert!(favorites.is_in_default("download/7"));
    assert!(!favorites.is_in_default("download/8"));
}

#[test]
fn add_to_makes_no_folder() {
    let mut favorites = ready();
    favorites.add_to("rock", "custom/a.zip");
    assert_eq!(favorites.all_folder_names(), names(&["default"]));
    assert!(favorites.get_paths("rock").is_empty());
    assert!(!favorites.is_favorited("custom/a.zip"));
}

#[test]
fn folder_names_tell_case_apart() {
    let mut favorites = ready();
    assert!(favorites.create_folder("Rock"));
    assert!(favorites.create_folder("rock"));
    favorites.add_to("Rock", "custom/a.zip");
    assert_eq!(favorites.get_paths("Rock"), names(&["custom/a.zip"]));
    assert!(favorites.get_paths("rock").is_empty());
}

#[test]
fn remove_from_takes_the_path_out_and_keeps_the_rest() {
    let mut favorites = ready();
    favorites.add_to("default", "a");
    favorites.add_to("default", "b");
    favorites.add_to("default", "c");
    favorites.remove_from("default", "b");
    assert_eq!(favorites.get_paths("default"), names(&["a", "c"]));
    favorites.remove_from("default", "b");
    assert_eq!(favorites.get_paths("default"), names(&["a", "c"]));
    favorites.remove_from("nowhere", "a");
    assert_eq!(favorites.get_paths("default"), names(&["a", "c"]));
    assert_eq!(favorites.all_folder_names(), names(&["default"]));
}

#[test]
fn membership_is_the_net_effect_of_adds_and_removes() {
    let mut favorites = ready();
    assert!(favorites.create_folder("mix"));
    favorites.add_to("mix", "a");
    favorites.add_to("mix", "b");
    favorites.remove_from("mix", "a");
    favorites.add_to("mix", "c");
    favorites.add_to("mix", "b");
    favorites.remove_from("mix", "d");
    favorites.add_to("mix", "a");
    favorites.remove_from("mix", "c");
    assert_eq!(favorites.get_paths("mix"), names(&["b", "a"]));
    assert!(favorites.get_paths("default").is_empty());
}

#[test]
fn a_path_may_stand_in_many_folders() {
    let mut favorites = ready();
    assert!(favorites.create_folder("one"));
    assert!(favorites.create_folder("two"));
    favorites.add_to("default", "p");
    favorites.add_to("two", "p");
    favorites.add_to("one", "q");
    assert_eq!(favorites.folders_containing("p"), names(&["default", "two"]));
    assert_eq!(favorites.folders_containing("q"), names(&["one"]));
    assert!(favorites.folders_containing("r").is_empty());
    assert!(favorites.is_favorited("p"));
    assert!(favorites.is_favorited("q"));
    assert!(!favorites.is_favorited("r"));
    assert!(!favorites.is_in_default("q"));
}

#[test]
fn toggle_default_adds_then_removes() {
    let mut favorites = ready();
    assert!(!favorites.is_in_default("p"));
    assert!(favorites.toggle_default("p"));
    assert!(favorites.is_in_default("p"));
    assert!(!favorites.toggle_default("p"));
    assert!(!favorites.is_in_default("p"));
    assert!(favorites.get_paths("default").is_empty());
}

#[test]
fn toggle_default_removes_a_path_that_is_there() {
    let mut favorites = ready();
    favorites.add_to("default", "a");
    favorites.add_to("default", "p");
    favorites.add_to("default", "b");
    assert!(!favorites.toggle_default("p"));
    assert_eq!(favorites.get_paths("default"), names(&["a", "b"]));
    assert!(favorites.toggle_default("p"));
    assert_eq!(favorites.get_paths("default"), names(&["a", "b", "p"]));
}

#[test]
fn toggle_default_makes_the_reserved_folder() {
    let mut favorites = Favorites::new();
    assert!(favorites.toggle_default("p"));
    assert_eq!(favorites.all_folder_names(), names(&["default"]));
    assert_eq!(favorites.get_paths("default"), names(&["p"]));
}

#[test]
fn create_folder_twice_fails_the_second_time() {
    let mut favorites = ready();
    assert!(favorites.create_folder("x"));
    favorites.add_to("x", "p");
    assert!(!favorites.create_folder("x"));
    assert_eq!(favorites.get_paths("x"), names(&["p"]));
    assert_eq!(favorites.all_folder_names(), names(&["default", "x"]));
    assert!(!favorites.create_folder("default"));
}

#[test]
fn create_folder_takes_an_empty_name() {
    let mut favorites = ready();
    assert!(favorites.create_folder(""));
    assert_eq!(favorites.custom_folder_names(), names(&[""]));
}

#[test]
fn rename_of_the_reserved_folder_fails() {
    let mut favorites = ready();
    favorites.add_to("default", "p");
    assert!(!favorites.rename_folder("default", "anything"));
    assert_eq!(favorites.all_folder_names(), names(&["default"]));
    assert_eq!(favorites.get_paths("default"), names(&["p"]));
    assert!(favorites.get_paths("anything").is_empty());
}

#[test]
fn rename_to_a_taken_name_fails() {
    let mut favorites = ready();
    assert!(favorites.create_folder("a"));
    assert!(favorites.create_folder("b"));
    favorites.add_to("a", "p");
    favorites.add_to("b", "q");
    assert!(!favorites.rename_folder("a", "b"));
    assert!(!favorites.rename_folder("a", "default"));
    assert!(!favorites.rename_folder("a", "a"));
    assert_eq!(favorites.get_paths("a"), names(&["p"]));
    assert_eq!(favorites.get_paths("b"), names(&["q"]));
    assert_eq!(favorites.all_folder_names(), names(&["default", "a", "b"]));
}

#[test]
fn rename_of_a_missing_folder_fails() {
    let mut favorites = ready();
    assert!(!favorites.rename_folder("ghost", "b"));
    assert_eq!(favorites.all_folder_names(), names(&["default"]));
}

#[test]
fn rename_moves_the_paths_and_leaves_the_cover() {
    let mut favorites = ready();
    assert!(favorites.create_folder("a"));
    assert!(favorites.create_folder("z"));
    favorites.add_to("a", "p");
    favorites.add_to("a", "q");
    favorites.set_cover("a", "/pictures/a.png");
    assert!(favorites.rename_folder("a", "b"));
    assert_eq!(favorites.get_paths("b"), names(&["p", "q"]));
    assert!(favorites.get_paths("a").is_empty());
    assert_eq!(favorites.custom_folder_names(), names(&["b", "z"]));
    assert_eq!(favorites.cover("a"), Some("/pictures/a.png".to_string()));
    assert_eq!(favorites.cover("b"), None);
}

#[test]
fn delete_folder_spares_the_reserved_folder() {
    let mut favorites = ready();
    favorites.add_to("default", "p");
    favorites.delete_folder("default");
    assert_eq!(favorites.all_folder_names(), names(&["default"]));
    assert_eq!(favorites.get_paths("default"), names(&["p"]));
}

#[test]
fn delete_folder_removes_only_that_folder() {
    let mut favorites = ready();
    assert!(favorites.create_folder("a"));
    assert!(favorites.create_folder("b"));
    favorites.add_to("a", "p");
    favorites.add_to("b", "p");
    favorites.add_to("default", "p");
    favorites.delete_folder("a");
    assert_eq!(favorites.all_folder_names(), names(&["default", "b"]));
    assert!(favorites.get_paths("a").is_empty());
    assert_eq!(favorites.folders_containing("p"), names(&["default", "b"]));
    favorites.delete_folder("a");
    assert_eq!(favorites.all_folder_names(), names(&["default", "b"]));
    assert!(favorites.create_folder("a"));
    assert!(favorites.get_paths("a").is_empty());
}

#[test]
fn delete_folder_leaves_the_covers() {
    let mut favorites = ready();
    assert!(favorites.create_folder("a"));
    assert!(favorites.create_folder("b"));
    favorites.set_cover("a", "/pictures/a.png");
    favorites.delete_folder("b");
    assert_eq!(favorites.cover_folders(), names(&["a"]));
    favorites.delete_folder("a");
    assert_eq!(favorites.cover_folders(), names(&["a"]));
    assert_eq!(favorites.cover("a"), Some("/pictures/a.png".to_string()));
    assert_eq!(favorites.remove_cover("a"), Some("/pictures/a.png".to_string()));
    assert!(favorites.cover_folders().is_empty());
}

#[test]
fn all_folder_names_put_the_reserved_folder_first() {
    let mut favorites = Favorites::new();
    assert!(favorites.create_folder("b"));
    assert!(favorites.create_folder("a"));
    assert_eq!(favorites.all_folder_names(), names(&["b", "a"]));
    favorites.ensure_default();
    assert!(favorites.create_folder("c"));
    assert_eq!(favorites.all_folder_names(), names(&["default", "b", "a", "c"]));
    assert_eq!(favorites.custom_folder_names(), names(&["b", "a", "c"]));
}

#[test]
fn get_paths_of_a_missing_folder_is_empty() {
    let favorites = ready();
    assert!(favorites.get_paths("nowhere").is_empty());
}

#[test]
fn covers_are_set_replaced_and_removed() {
    let mut favorites = ready();
    assert_eq!(favorites.cover("default"), None);
    favorites.set_cover("default", "/pictures/one.png");
    favorites.set_cover("other", "/pictures/two.png");
    assert_eq!(favorites.cover("default"), Some("/pictures/one.png".to_string()));
    favorites.set_cover("default", "/pictures/three.png");
    assert_eq!(favorites.cover("default"), Some("/pictures/three.png".to_string()));
    assert_eq!(favorites.cover_folders(), names(&["default", "other"]));
    assert_eq!(favorites.remove_cover("default"), Some("/pictures/three.png".to_string()));
    assert_eq!(favorites.remove_cover("default"), None);
    assert_eq!(favorites.cover("default"), None);
    assert_eq!(favorites.cover_folders(), names(&["other"]));
    assert_eq!(favorites.all_folder_names(), names(&["default"]));
}

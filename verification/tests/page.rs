use phira_data::chart::{BriefChartInfo, ChartInfo, LocalChart};
use phira_data::data::Data;
use phira_data::favorites::Favorites;
use phira_data::page::{CoverSource, FolderCard, NameError};

fn listed(list: &[&str]) -> Vec<String> {
    list.iter().map(|s| s.to_string()).collect()
}

fn plain_chart(path: &str) -> LocalChart {
    LocalChart {
        info: BriefChartInfo::from(ChartInfo {
            id: None,
            uploader: None,
            name: path.to_string(),
            level: String::new(),
            difficulty_bits: 0,
            intro: String::new(),
            charter: String::new(),
            composer: String::new(),
            illustrator: String::new(),
            created: None,
            updated: None,
            chart_updated: None,
            unlock_video: None,
        }),
        local_path: path.to_string(),
        record: None,
        mods: 0,
        played_unlock: false,
    }
}

fn with_default() -> Favorites {
    let mut favorites = Favorites::new();
    favorites.ensure_default();
    favorites
}

#[test]
fn create_named_turns_down_empty_and_taken_names() {
    let mut favorites = with_default();
    assert_eq!(favorites.create_named(""), Err(NameError::Empty));
    assert_eq!(favorites.create_named("default"), Err(NameError::Exists));
    assert_eq!(favorites.create_named("rock"), Ok(()));
    assert_eq!(favorites.create_named("rock"), Err(NameError::Exists));
    assert_eq!(favorites.create_named(" "), Ok(()));
    assert_eq!(favorites.all_folder_names(), listed(&["default", "rock", " "]));
}

#[test]
fn create_from_input_trims_the_name() {
    let mut favorites = with_default();
    assert_eq!(favorites.create_from_input("  rock \n"), Ok("rock".to_string()));
    assert_eq!(favorites.all_folder_names(), listed(&["default", "rock"]));
    assert_eq!(favorites.create_from_input("rock"), Err(NameError::Exists));
    assert_eq!(favorites.create_from_input("\trock\u{3000}"), Err(NameError::Exists));
    assert_eq!(favorites.create_from_input(""), Err(NameError::Empty));
    assert_eq!(favorites.create_from_input(" \t\r\n "), Err(NameError::Empty));
    assert_eq!(favorites.create_from_input(" soft rock "), Ok("soft rock".to_string()));
    assert_eq!(favorites.all_folder_names(), listed(&["default", "rock", "soft rock"]));
}

#[test]
fn rename_named_moves_the_cover_along() {
    let mut favorites = with_default();
    assert!(favorites.create_folder("a"));
    favorites.add_to("a", "p");
    favorites.set_cover("a", "/a.png");
    assert_eq!(favorites.rename_named("a", "b"), Ok(()));
    assert_eq!(favorites.get_paths("b"), listed(&["p"]));
    assert_eq!(favorites.cover("b"), Some("/a.png".to_string()));
    assert_eq!(favorites.cover("a"), None);
    assert_eq!(favorites.cover_folders(), listed(&["b"]));
}

#[test]
fn rename_named_without_a_cover_moves_none() {
    let mut favorites = with_default();
    assert!(favorites.create_folder("a"));
    favorites.set_cover("b", "/stale.png");
    assert_eq!(favorites.rename_named("a", "b"), Ok(()));
    assert_eq!(favorites.cover("b"), Some("/stale.png".to_string()));
    assert_eq!(favorites.cover_folders(), listed(&["b"]));
}

#[test]
fn rename_named_puts_the_cover_in_place_of_a_stale_one() {
    let mut favorites = with_default();
    assert!(favorites.create_folder("a"));
    favorites.set_cover("b", "/stale.png");
    favorites.set_cover("a", "/a.png");
    assert_eq!(favorites.rename_named("a", "b"), Ok(()));
    assert_eq!(favorites.cover("b"), Some("/a.png".to_string()));
    assert_eq!(favorites.cover("a"), None);
    assert_eq!(favorites.cover_folders(), listed(&["b"]));
}

#[test]
fn rename_named_turns_down_what_rename_folder_turns_down() {
    let mut favorites = with_default();
    assert!(favorites.create_folder("a"));
    assert!(favorites.create_folder("b"));
    favorites.set_cover("a", "/a.png");
    favorites.set_cover("default", "/d.png");
    assert_eq!(favorites.rename_named("a", ""), Err(NameError::Empty));
    assert_eq!(favorites.rename_named("a", "b"), Err(NameError::Exists));
    assert_eq!(favorites.rename_named("default", "c"), Err(NameError::Exists));
    assert_eq!(favorites.rename_named("ghost", "c"), Err(NameError::Exists));
    assert_eq!(favorites.rename_named("default", ""), Err(NameError::Empty));
    assert_eq!(favorites.all_folder_names(), listed(&["default", "a", "b"]));
    assert_eq!(favorites.cover("a"), Some("/a.png".to_string()));
    assert_eq!(favorites.cover("default"), Some("/d.png".to_string()));
    assert_eq!(favorites.cover_folders(), listed(&["a", "default"]));
}

#[test]
fn rename_from_input_trims_the_name() {
    let mut favorites = with_default();
    assert!(favorites.create_folder("a"));
    favorites.set_cover("a", "/a.png");
    assert_eq!(favorites.rename_from_input("a", "   "), Err(NameError::Empty));
    assert_eq!(favorites.rename_from_input("a", " default "), Err(NameError::Exists));
    assert_eq!(favorites.rename_from_input("a", " b\n"), Ok("b".to_string()));
    assert_eq!(favorites.all_folder_names(), listed(&["default", "b"]));
    assert_eq!(favorites.cover("b"), Some("/a.png".to_string()));
}

#[test]
fn last_chart_path_passes_over_charts_that_left() {
    let mut data = Data::default();
    data.favorites.ensure_default();
    assert_eq!(data.last_chart_path("default"), None);
    data.favorites.add_to("default", "custom/a");
    data.favorites.add_to("default", "custom/b");
    data.favorites.add_to("default", "custom/c");
    assert_eq!(data.last_chart_path("default"), None);
    data.charts = vec![plain_chart("custom/b"), plain_chart("custom/a")];
    assert_eq!(data.last_chart_path("default"), Some("custom/b".to_string()));
    data.charts.push(plain_chart("custom/c"));
    assert_eq!(data.last_chart_path("default"), Some("custom/c".to_string()));
    assert_eq!(data.last_chart_path("nowhere"), None);
}

#[test]
fn cover_source_prefers_the_override() {
    let mut data = Data::default();
    data.favorites.ensure_default();
    assert_eq!(data.cover_source("default"), CoverSource::Blank);
    data.favorites.add_to("default", "custom/a");
    assert_eq!(data.cover_source("default"), CoverSource::Blank);
    data.charts = vec![plain_chart("custom/a")];
    assert_eq!(data.cover_source("default"), CoverSource::Chart("custom/a".to_string()));
    data.favorites.set_cover("default", "/d.png");
    assert_eq!(data.cover_source("default"), CoverSource::Custom("/d.png".to_string()));
    assert_eq!(data.cover_source("nowhere"), CoverSource::Blank);
}

#[test]
fn folder_cards_start_with_the_card_for_all_charts() {
    let mut data = Data::default();
    assert_eq!(data.folder_cards(), vec![FolderCard { folder: None, cover: CoverSource::Blank }]);
    assert!(data.favorites.create_folder("rock"));
    data.favorites.ensure_default();
    assert!(data.favorites.create_folder("jazz"));
    data.favorites.add_to("rock", "custom/a");
    data.favorites.add_to("rock", "custom/gone");
    data.favorites.set_cover("jazz", "/j.png");
    data.charts = vec![plain_chart("custom/a")];
    assert_eq!(
        data.folder_cards(),
        vec![
            FolderCard { folder: None, cover: CoverSource::Blank },
            FolderCard { folder: Some("default".to_string()), cover: CoverSource::Blank },
            FolderCard {
                folder: Some("rock".to_string()),
                cover: CoverSource::Chart("custom/a".to_string()),
            },
            FolderCard {
                folder: Some("jazz".to_string()),
                cover: CoverSource::Custom("/j.png".to_string()),
            },
        ]
    );
}

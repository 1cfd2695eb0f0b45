use phira_data::chart::{BriefChartInfo, ChartInfo, LocalChart, SimpleRecord, Timestamp};
use phira_data::data::{
    default_anys_gateway, Data, StorageScan, RES_PACK_FALLBACK, TERMS_MODIFIED,
};
use phira_data::local_path::Area;
use phira_data::reconcile::FoundEntry;

fn info_named(name: &str) -> ChartInfo {
    ChartInfo {
        id: Some(1000),
        uploader: Some(5),
        name: name.to_string(),
        level: "HD Lv.9".to_string(),
        difficulty_bits: 0x4110_0000,
        intro: String::new(),
        charter: "c".to_string(),
        composer: "m".to_string(),
        illustrator: "i".to_string(),
        created: Some(Timestamp { secs: 10, nanos: 1 }),
        updated: None,
        chart_updated: None,
        unlock_video: None,
    }
}

fn chart_at(path: &str) -> LocalChart {
    LocalChart {
        info: BriefChartInfo::from(info_named(path)),
        local_path: path.to_string(),
        record: Some(SimpleRecord {
            score: 900_000,
            accuracy_bits: 0x3f80_0000,
            full_combo: false,
        }),
        mods: 4,
        played_unlock: true,
    }
}

fn readable(name: &str) -> FoundEntry {
    FoundEntry { name: name.to_string(), info: Some(info_named(name)) }
}

fn unreadable(name: &str) -> FoundEntry {
    FoundEntry { name: name.to_string(), info: None }
}

fn nothing_found() -> StorageScan {
    StorageScan { present: vec![], imports: vec![], downloads: vec![], respacks: vec![] }
}

fn strings(list: &[&str]) -> Vec<String> {
    list.iter().map(|s| s.to_string()).collect()
}

fn paths_of(data: &Data) -> Vec<String> {
    data.charts.iter().map(|c| c.local_path.clone()).collect()
}

#[test]
fn a_fresh_root_holds_nothing() {
    let data = Data::default();
    assert!(data.charts.is_empty());
    assert!(data.respacks.is_empty());
    assert_eq!(data.res_pack_path, None);
    assert!(!data.read_tos_and_policy);
    assert_eq!(data.terms_modified, None);
    assert!(data.favorites.all_folder_names().is_empty());
}

#[test]
fn the_default_gateway_is_fixed() {
    assert_eq!(default_anys_gateway(), "https://anys.mivik.moe");
}

#[test]
fn init_on_empty_storage_makes_the_reserved_folder() {
    let mut data = Data::default();
    data.init(nothing_found());
    assert!(data.charts.is_empty());
    assert_eq!(data.favorites.all_folder_names(), strings(&["default"]));
    assert_eq!(data.res_pack_path, None);
    assert_eq!(data.terms_modified, None);
}

#[test]
fn init_prunes_charts_that_left_storage() {
    let mut data = Data::default();
    data.charts = vec![chart_at("custom/a.zip"), chart_at("download/3"), chart_at("builtin/x")];
    let mut scan = nothing_found();
    scan.present = strings(&["download/3", "builtin/x", "custom/never"]);
    data.init(scan);
    assert_eq!(data.charts, vec![chart_at("download/3"), chart_at("builtin/x")]);
}

#[test]
fn pruning_does_not_touch_the_favorites() {
    let mut data = Data::default();
    data.favorites.ensure_default();
    data.favorites.add_to("default", "custom/a.zip");
    data.charts = vec![chart_at("custom/a.zip")];
    data.init(nothing_found());
    assert!(data.charts.is_empty());
    assert_eq!(data.favorites.get_paths("default"), strings(&["custom/a.zip"]));
    assert_eq!(data.find_chart_by_path("custom/a.zip"), None);
}

#[test]
fn one_readable_import_and_one_corrupt() {
    let mut data = Data::default();
    let mut scan = nothing_found();
    scan.imports = vec![readable("song.zip"), unreadable("bad.zip")];
    data.init(scan);
    assert_eq!(data.charts.len(), 1);
    let chart = &data.charts[0];
    assert_eq!(chart.local_path, "custom/song.zip");
    assert_eq!(chart.info.id, None);
    assert_eq!(chart.info.name, "song.zip");
    assert_eq!(chart.info.uploader, Some(5));
    assert_eq!(chart.record, None);
    assert_eq!(chart.mods, 0);
    assert!(!chart.played_unlock);
}

#[test]
fn downloads_named_by_id_and_otherwise() {
    let mut data = Data::default();
    let mut scan = nothing_found();
    scan.downloads = vec![readable("42"), readable("abc")];
    data.init(scan);
    assert_eq!(data.charts.len(), 1);
    let chart = &data.charts[0];
    assert_eq!(chart.local_path, "download/42");
    assert_eq!(chart.info.id, Some(42));
    assert_eq!(chart.record, None);
    assert_eq!(chart.mods, 0);
    assert!(!chart.played_unlock);
    let mut expected = BriefChartInfo::from(info_named("42"));
    expected.id = Some(42);
    assert_eq!(chart.info, expected);
}

#[test]
fn a_download_keeps_the_name_of_its_entry_in_its_path() {
    let mut data = Data::default();
    let mut scan = nothing_found();
    scan.downloads = vec![readable("007"), readable("-5"), unreadable("8"), readable("9.zip")];
    data.init(scan);
    assert_eq!(paths_of(&data), strings(&["download/007", "download/-5"]));
    assert_eq!(data.charts[0].info.id, Some(7));
    assert_eq!(data.charts[1].info.id, Some(-5));
}

#[test]
fn known_entries_are_passed_over() {
    let mut data = Data::default();
    data.charts = vec![chart_at("custom/a.zip"), chart_at("download/3")];
    let mut scan = nothing_found();
    scan.present = strings(&["custom/a.zip", "download/3"]);
    scan.imports = vec![readable("a.zip"), readable("b.zip")];
    scan.downloads = vec![readable("3"), readable("4")];
    data.init(scan);
    assert_eq!(
        paths_of(&data),
        strings(&["custom/a.zip", "download/3", "custom/b.zip", "download/4"])
    );
    assert_eq!(data.charts[0], chart_at("custom/a.zip"));
    assert_eq!(data.charts[1], chart_at("download/3"));
}

#[test]
fn a_chart_that_was_pruned_is_found_anew() {
    let mut data = Data::default();
    data.charts = vec![chart_at("custom/a.zip")];
    let mut scan = nothing_found();
    scan.imports = vec![readable("a.zip")];
    data.init(scan);
    assert_eq!(paths_of(&data), strings(&["custom/a.zip"]));
    assert_eq!(data.charts[0].record, None);
    assert_eq!(data.charts[0].mods, 0);
}

#[test]
fn imports_come_before_downloads() {
    let mut data = Data::default();
    data.charts = vec![chart_at("builtin/x")];
    let mut scan = nothing_found();
    scan.present = strings(&["builtin/x"]);
    scan.downloads = vec![readable("2"), readable("1")];
    scan.imports = vec![readable("z.zip"), readable("a.zip")];
    data.init(scan);
    assert_eq!(
        paths_of(&data),
        strings(&["builtin/x", "custom/z.zip", "custom/a.zip", "download/2", "download/1"])
    );
}

#[test]
fn the_known_paths_are_taken_once() {
    let mut data = Data::default();
    let mut scan = nothing_found();
    scan.imports = vec![readable("a.zip"), readable("a.zip")];
    data.init(scan);
    assert_eq!(paths_of(&data), strings(&["custom/a.zip", "custom/a.zip"]));
}

#[test]
fn a_second_pass_changes_nothing() {
    let mut data = Data::default();
    data.charts = vec![chart_at("custom/old.zip"), chart_at("custom/gone.zip")];
    let mut scan = nothing_found();
    scan.present = strings(&["custom/old.zip"]);
    scan.imports = vec![readable("old.zip"), readable("song.zip"), unreadable("bad.zip")];
    scan.downloads = vec![readable("42"), readable("abc"), unreadable("43")];
    data.init(scan.clone());
    let after_first = data.charts.clone();
    assert_eq!(
        paths_of(&data),
        strings(&["custom/old.zip", "custom/song.zip", "download/42"])
    );
    scan.present = paths_of(&data);
    data.init(scan.clone());
    assert_eq!(data.charts, after_first);
    scan.imports = vec![unreadable("old.zip"), unreadable("song.zip"), unreadable("bad.zip")];
    scan.downloads = vec![unreadable("42"), unreadable("abc"), unreadable("43")];
    data.init(scan);
    assert_eq!(data.charts, after_first);
}

#[test]
fn resource_packs_found_are_noted_once() {
    let mut data = Data::default();
    data.respacks = strings(&["one", "two"]);
    let mut scan = nothing_found();
    scan.respacks = strings(&["two", "three", "one", "four"]);
    data.init(scan);
    assert_eq!(data.respacks, strings(&["one", "two", "three", "four"]));
    let mut scan = nothing_found();
    scan.respacks = strings(&["four", "three"]);
    data.init(scan);
    assert_eq!(data.respacks, strings(&["one", "two", "three", "four"]));
}

#[test]
fn an_absolute_resource_pack_path_gives_way() {
    assert_eq!(RES_PACK_FALLBACK, "chart.zip");
    let mut data = Data::default();
    data.res_pack_path = Some("/storage/packs/old.zip".to_string());
    data.init(nothing_found());
    assert_eq!(data.res_pack_path, Some("chart.zip".to_string()));
    data.res_pack_path = Some("mine.zip".to_string());
    data.init(nothing_found());
    assert_eq!(data.res_pack_path, Some("mine.zip".to_string()));
    data.res_pack_path = Some(String::new());
    data.init(nothing_found());
    assert_eq!(data.res_pack_path, Some(String::new()));
    data.res_pack_path = Some("packs/x.zip".to_string());
    data.init(nothing_found());
    assert_eq!(data.res_pack_path, Some("packs/x.zip".to_string()));
}

#[test]
fn accepted_terms_get_their_date() {
    assert_eq!(TERMS_MODIFIED, "Mon, 05 Aug 2024 17:32:41 GMT");
    let mut data = Data::default();
    data.read_tos_and_policy = true;
    data.terms_modified = Some("older".to_string());
    data.init(nothing_found());
    assert!(!data.read_tos_and_policy);
    assert_eq!(data.terms_modified, Some("Mon, 05 Aug 2024 17:32:41 GMT".to_string()));
    data.terms_modified = Some("newer".to_string());
    data.init(nothing_found());
    assert!(!data.read_tos_and_policy);
    assert_eq!(data.terms_modified, Some("newer".to_string()));
}

#[test]
fn init_keeps_the_folders_that_are_there() {
    let mut data = Data::default();
    assert!(data.favorites.create_folder("rock"));
    data.favorites.add_to("rock", "custom/a.zip");
    data.favorites.set_cover("rock", "/p.png");
    data.init(nothing_found());
    assert_eq!(data.favorites.all_folder_names(), strings(&["default", "rock"]));
    assert_eq!(data.favorites.get_paths("rock"), strings(&["custom/a.zip"]));
    assert_eq!(data.favorites.cover("rock"), Some("/p.png".to_string()));
    data.favorites.add_to("default", "download/1");
    data.init(nothing_found());
    assert_eq!(data.favorites.get_paths("default"), strings(&["download/1"]));
}

#[test]
fn find_chart_by_path_gives_the_first_place() {
    let mut data = Data::default();
    data.charts = vec![chart_at("a"), chart_at("b"), chart_at("a")];
    assert_eq!(data.find_chart_by_path("a"), Some(0));
    assert_eq!(data.find_chart_by_path("b"), Some(1));
    assert_eq!(data.find_chart_by_path("c"), None);
    assert_eq!(data.find_chart_by_path(""), None);
    assert_eq!(data.find_chart_by_path("A"), None);
}

#[test]
fn needs_info_tells_which_entries_to_read() {
    let mut data = Data::default();
    data.charts = vec![chart_at("custom/a.zip"), chart_at("download/3"), chart_at("custom/lost")];
    let present = strings(&["custom/a.zip", "download/3"]);
    assert!(!data.needs_info(&present, Area::Imports, "a.zip"));
    assert!(data.needs_info(&present, Area::Imports, "b.zip"));
    assert!(data.needs_info(&present, Area::Imports, "lost"));
    assert!(data.needs_info(&present, Area::Imports, "3"));
    assert!(!data.needs_info(&present, Area::Downloads, "3"));
    assert!(data.needs_info(&present, Area::Downloads, "4"));
    assert!(data.needs_info(&present, Area::Downloads, "03"));
    assert!(!data.needs_info(&present, Area::Downloads, "abc"));
    assert!(!data.needs_info(&present, Area::Downloads, ""));
    assert!(data.needs_info(&vec![], Area::Downloads, "3"));
}

use phira_data::chart::{BriefChartInfo, ChartInfo, LocalChart, SimpleRecord, Timestamp};

fn header() -> ChartInfo {
    ChartInfo {
        id: Some(9),
        uploader: Some(3),
        name: "Night Drive".to_string(),
        level: "IN Lv.13".to_string(),
        difficulty_bits: 0x4150_0000,
        intro: "a short ride".to_string(),
        charter: "someone".to_string(),
        composer: "someone else".to_string(),
        illustrator: "a third".to_string(),
        created: Some(Timestamp { secs: 1_700_000_000, nanos: 5 }),
        updated: None,
        chart_updated: Some(Timestamp { secs: 1_700_000_100, nanos: 0 }),
        unlock_video: Some("unlock.mp4".to_string()),
    }
}

#[test]
fn brief_info_keeps_every_field_of_the_header() {
    let brief = BriefChartInfo::from(header());
    assert_eq!(
        brief,
        BriefChartInfo {
            id: Some(9),
            uploader: Some(3),
            name: "Night Drive".to_string(),
            level: "IN Lv.13".to_string(),
            difficulty_bits: 0x4150_0000,
            intro: "a short ride".to_string(),
            charter: "someone".to_string(),
            composer: "someone else".to_string(),
            illustrator: "a third".to_string(),
            created: Some(Timestamp { secs: 1_700_000_000, nanos: 5 }),
            updated: None,
            chart_updated: Some(Timestamp { secs: 1_700_000_100, nanos: 0 }),
            has_unlock: true,
        }
    );
}

#[test]
fn brief_info_notes_a_missing_unlock_video() {
    let mut info = header();
    info.unlock_video = None;
    info.id = None;
    info.uploader = None;
    let brief: BriefChartInfo = info.into();
    assert!(!brief.has_unlock);
    assert_eq!(brief.id, None);
    assert_eq!(brief.uploader, None);
    assert_eq!(brief.name, "Night Drive");
}

#[test]
fn a_local_chart_is_a_plain_record() {
    let chart = LocalChart {
        info: BriefChartInfo::from(header()),
        local_path: "download/9".to_string(),
        record: Some(SimpleRecord { score: 987_654, accuracy_bits: 0x3f7d_70a4, full_combo: true }),
        mods: 2,
        played_unlock: true,
    };
    let copy = chart.clone();
    assert_eq!(copy, chart);
    assert_eq!(copy.record.map(|r| r.score), Some(987_654));
    assert_eq!(f32::from_bits(copy.record.unwrap().accuracy_bits), 0.99);
    assert_eq!(f32::from_bits(copy.info.difficulty_bits), 13.0);
}

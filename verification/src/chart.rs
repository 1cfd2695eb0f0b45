//! The records kept of a chart: what its metadata says, and what the user
//! has attached to it.
//!
//! Each record has a view in which every string is a sequence of characters;
//! contracts compare records by their views.

use vstd::prelude::*;
use vstd::std_specs::convert::FromSpecImpl;

verus! {

/// A point in time: whole seconds since the Unix epoch, and the nanoseconds
/// into that second.
#[derive(Clone, Copy, Debug, PartialEq, Eq, Structural)]
pub struct Timestamp {
    pub secs: i64,
    pub nanos: u32,
}

/// The best result played on a chart. The accuracy is held as the bit
/// pattern of its 32-bit binary fraction, which this library never reads.
#[derive(Clone, Copy, Debug, PartialEq, Eq, Structural)]
pub struct SimpleRecord {
    pub score: i32,
    pub accuracy_bits: u32,
    pub full_combo: bool,
}

/// The metadata header of a chart as its reader hands it over.
#[derive(Clone, Debug, PartialEq, Eq)]
pub struct ChartInfo {
    pub id: Option<i32>,
    pub uploader: Option<i32>,
    pub name: String,
    pub level: String,
    pub difficulty_bits: u32,
    pub intro: String,
    pub charter: String,
    pub composer: String,
    pub illustrator: String,
    pub created: Option<Timestamp>,
    pub updated: Option<Timestamp>,
    pub chart_updated: Option<Timestamp>,
    pub unlock_video: Option<String>,
}

/// The model of a [`ChartInfo`].
pub struct ChartInfoView {
    pub id: Option<i32>,
    pub uploader: Option<i32>,
    pub name: Seq<char>,
    pub level: Seq<char>,
    pub difficulty_bits: u32,
    pub intro: Seq<char>,
    pub charter: Seq<char>,
    pub composer: Seq<char>,
    pub illustrator: Seq<char>,
    pub created: Option<Timestamp>,
    pub updated: Option<Timestamp>,
    pub chart_updated: Option<Timestamp>,
    pub unlock_video: Option<Seq<char>>,
}

impl View for ChartInfo {
    type V = ChartInfoView;

    open spec fn view(&self) -> ChartInfoView {
        ChartInfoView {
            id: self.id,
            uploader: self.uploader,
            name: self.name@,
            level: self.level@,
            difficulty_bits: self.difficulty_bits,
            intro: self.intro@,
            charter: self.charter@,
            composer: self.composer@,
            illustrator: self.illustrator@,
            created: self.created,
            updated: self.updated,
            chart_updated: self.chart_updated,
            unlock_video: match self.unlock_video {
                Some(v) => Some(v@),
                None => None,
            },
        }
    }
}

/// What the index keeps of a chart's metadata.
#[derive(Clone, Debug, PartialEq, Eq)]
pub struct BriefChartInfo {
    pub id: Option<i32>,
    pub uploader: Option<i32>,
    pub name: String,
    pub level: String,
    pub difficulty_bits: u32,
    pub intro: String,
    pub charter: String,
    pub composer: String,
    pub illustrator: String,
    pub created: Option<Timestamp>,
    pub updated: Option<Timestamp>,
    pub chart_updated: Option<Timestamp>,
    pub has_unlock: bool,
}

/// The model of a [`BriefChartInfo`].
pub struct BriefChartInfoView {
    pub id: Option<i32>,
    pub uploader: Option<i32>,
    pub name: Seq<char>,
    pub level: Seq<char>,
    pub difficulty_bits: u32,
    pub intro: Seq<char>,
    pub charter: Seq<char>,
    pub composer: Seq<char>,
    pub illustrator: Seq<char>,
    pub created: Option<Timestamp>,
    pub updated: Option<Timestamp>,
    pub chart_updated: Option<Timestamp>,
    pub has_unlock: bool,
}

impl View for BriefChartInfo {
    type V = BriefChartInfoView;

    open spec fn view(&self) -> BriefChartInfoView {
        BriefChartInfoView {
            id: self.id,
            uploader: self.uploader,
            name: self.name@,
            level: self.level@,
            difficulty_bits: self.difficulty_bits,
            intro: self.intro@,
            charter: self.charter@,
            composer: self.composer@,
            illustrator: self.illustrator@,
            created: self.created,
            updated: self.updated,
            chart_updated: self.chart_updated,
            has_unlock: self.has_unlock,
        }
    }
}

/// What the index keeps of the header `info`: every field but the unlock
/// video, of which it keeps whether there is one.
pub open spec fn brief(info: ChartInfoView) -> BriefChartInfoView {
    BriefChartInfoView {
        id: info.id,
        uploader: info.uploader,
        name: info.name,
        level: info.level,
        difficulty_bits: info.difficulty_bits,
        intro: info.intro,
        charter: info.charter,
        composer: info.composer,
        illustrator: info.illustrator,
        created: info.created,
        updated: info.updated,
        chart_updated: info.chart_updated,
        has_unlock: info.unlock_video is Some,
    }
}

impl From<ChartInfo> for BriefChartInfo {
    fn from(info: ChartInfo) -> (r: BriefChartInfo)
        ensures
            r@ == brief(info@),
    {
        BriefChartInfo {
            id: info.id,
            uploader: info.uploader,
            name: info.name,
            level: info.level,
            difficulty_bits: info.difficulty_bits,
            intro: info.intro,
            charter: info.charter,
            composer: info.composer,
            illustrator: info.illustrator,
            created: info.created,
            updated: info.updated,
            chart_updated: info.chart_updated,
            has_unlock: info.unlock_video.is_some(),
        }
    }
}

impl FromSpecImpl<ChartInfo> for BriefChartInfo {
    open spec fn obeys_from_spec() -> bool {
        true
    }

    open spec fn from_spec(info: ChartInfo) -> BriefChartInfo {
        BriefChartInfo {
            id: info.id,
            uploader: info.uploader,
            name: info.name,
            level: info.level,
            difficulty_bits: info.difficulty_bits,
            intro: info.intro,
            charter: info.charter,
            composer: info.composer,
            illustrator: info.illustrator,
            created: info.created,
            updated: info.updated,
            chart_updated: info.chart_updated,
            has_unlock: info.unlock_video is Some,
        }
    }
}

/// A chart that is on this machine.
#[derive(Clone, Debug, PartialEq, Eq)]
pub struct LocalChart {
    pub info: BriefChartInfo,
    /// Where the chart is kept, below the charts directory. It is the key by
    /// which the chart is known everywhere else.
    pub local_path: String,
    pub record: Option<SimpleRecord>,
    /// The play modifiers, as a set of bits.
    pub mods: i32,
    pub played_unlock: bool,
}

/// The model of a [`LocalChart`].
pub struct LocalChartView {
    pub info: BriefChartInfoView,
    pub local_path: Seq<char>,
    pub record: Option<SimpleRecord>,
    pub mods: i32,
    pub played_unlock: bool,
}

impl View for LocalChart {
    type V = LocalChartView;

    open spec fn view(&self) -> LocalChartView {
        LocalChartView {
            info: self.info@,
            local_path: self.local_path@,
            record: self.record,
            mods: self.mods,
            played_unlock: self.played_unlock,
        }
    }
}

/// The models of the charts of a list, in order.
pub open spec fn chart_views(charts: Seq<LocalChart>) -> Seq<LocalChartView> {
    charts.map_values(|c: LocalChart| c@)
}

/// The local paths of the charts of a list, in order.
pub open spec fn chart_paths(charts: Seq<LocalChartView>) -> Seq<Seq<char>> {
    charts.map_values(|c: LocalChartView| c.local_path)
}

} // verus!

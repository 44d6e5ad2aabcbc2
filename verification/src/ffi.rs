//! The types the app's bindings carry across the language boundary, and
//! their conversions to and from the core's own.
//!
//! The bindings keep the surface coarse: one call per request, whole
//! results back, typed errors instead of panics.

use vstd::prelude::*;
use crate::error::CoreError;
use crate::exchange;
use crate::exchange::archive;
use crate::region::format as fmt;
use crate::section as sec;
use crate::tag;
use crate::types;

verus! {

/// Road class, from OSM `highway=*`.
#[derive(Debug, Clone, Copy, PartialEq, Eq, Structural)]
pub enum RoadClass {
    Motorway,
    Trunk,
    Primary,
    Secondary,
    Tertiary,
    Unclassified,
    Residential,
    LivingStreet,
    Service,
    Track,
    Ferry,
    /// A class this build doesn't know (a newer region file).
    Other,
}

/// Road surface, from OSM `surface=*`.
#[derive(Debug, Clone, Copy, PartialEq, Eq, Structural)]
pub enum Surface {
    /// Not tagged, or a surface this build doesn't know; the router
    /// treats it as paved.
    Unknown,
    Asphalt,
    Concrete,
    Paved,
    Sett,
    Compacted,
    Gravel,
    Dirt,
}

/// Road types a route should stay off.
#[derive(Debug, Clone, Copy, PartialEq, Eq, Structural)]
pub struct Avoid {
    pub motorways: bool,
    pub ferries: bool,
}

/// What a route does with gravel and other unpaved roads.
#[derive(Debug, Clone, Copy, PartialEq, Eq, Structural)]
pub enum Gravel {
    /// Keep off them where possible, except on the rider's favourites.
    Avoid,
    /// Treat them like any other road.
    Allow,
    /// Seek them out, within the time budget.
    Prefer,
}

#[derive(Debug, Clone, Copy, PartialEq, Eq, Structural)]
pub enum Rating {
    Good,
    Great,
    Epic,
}

#[derive(Debug, Clone, Copy, PartialEq, Eq, Structural)]
pub enum Direction {
    /// Good both ways.
    Both,
    /// Only in the order of the section's geometry.
    Forward,
}

#[derive(Debug, Clone, Copy, PartialEq, Eq, Structural)]
pub enum SectionSource {
    /// Picked on the map.
    OnMap,
    Tag,
    Track,
    Import,
}

#[derive(Debug, Clone, Copy, PartialEq, Eq, Structural)]
pub enum SectionStatus {
    /// Fits the loaded road network.
    Matched,
    NeedsRematch,
    Unmatched,
}

#[derive(Debug, Clone, Copy, PartialEq, Eq, Structural)]
pub struct WaySpan {
    pub way_id: i64,
    pub from_idx: u32,
    pub to_idx: u32,
}

/// Changes to a saved section; `None` leaves a field as it is.
#[derive(Debug, Clone, Default, PartialEq)]
pub struct SectionUpdate {
    pub name: Option<String>,
    pub rating: Option<Rating>,
    pub direction: Option<Direction>,
}

#[derive(Debug, Clone, Copy, PartialEq, Eq, Structural)]
pub enum TagStatus {
    /// Not reviewed yet.
    Pending,
    /// Saved as a section.
    Used,
    Discarded,
}

/// How an export is packed.
#[derive(Debug, Clone, Copy, PartialEq, Eq, Structural)]
pub enum ExportFormat {
    /// Plain `.geojson`.
    GeoJson,
    /// `.geojson.gz`.
    Gzip,
    /// `.zip` holding one `.geojson`.
    Zip,
    /// `.tar.gz` holding one `.geojson`.
    TarGz,
}

/// What an import did.
#[derive(Debug, Clone, Copy, PartialEq, Eq, Structural)]
pub struct ImportReport {
    /// Sections added.
    pub added: u64,
    /// Imported sections already covered by a saved (or longer imported)
    /// section.
    pub skipped: u64,
    /// Saved sections replaced by a longer imported section covering them.
    pub replaced: u64,
    /// Added sections that don't fit the current map (hidden as unmatched).
    pub unmatched: u64,
}

/// What an append did: points stored now (older ones already stored are
/// skipped) and the track's total.
#[derive(Debug, Clone, Copy, PartialEq, Eq, Structural)]
pub struct TrackAppend {
    pub added: u64,
    pub point_count: u64,
}

/// A flat error for the bindings: each variant becomes an exception class
/// whose message is the error's text.
#[derive(Debug, Clone, PartialEq)]
pub enum MotoError {
    InvalidInput { message: String },
    Region { message: String },
    Storage { message: String },
    OutsideRegion { message: String },
    NoRoadNearby { message: String },
    NoRoute { message: String },
}

impl MotoError {
    /// The error the bindings raise for a core error: the variant by kind,
    /// the core error's text as the message.
    pub fn from_core(e: &CoreError) -> (r: MotoError)
        ensures
            match *e {
                CoreError::InvalidArgument(_) => r matches MotoError::InvalidInput { message } && message@ == e.text(),
                CoreError::Region(_) => r matches MotoError::Region { message } && message@ == e.text(),
                CoreError::Storage(_) => r matches MotoError::Storage { message } && message@ == e.text(),
                CoreError::NoRoute(_) => r matches MotoError::NoRoute { message } && message@ == e.text(),
            },
    {
        let message = e.message();
        match e {
            CoreError::InvalidArgument(_) => MotoError::InvalidInput { message },
            CoreError::Region(_) => MotoError::Region { message },
            CoreError::Storage(_) => MotoError::Storage { message },
            CoreError::NoRoute(_) => MotoError::NoRoute { message },
        }
    }
}

/// The usual file name extension for `format`, e.g. "tar.gz".
pub fn export_extension(format: ExportFormat) -> (s: String)
    ensures
        s@ == match format {
            ExportFormat::GeoJson => "geojson"@,
            ExportFormat::Gzip => "geojson.gz"@,
            ExportFormat::Zip => "zip"@,
            ExportFormat::TarGz => "tar.gz"@,
        },
{
    crate::error::owned(archive::ExportFormat::from(format).extension())
}

impl From<SectionUpdate> for sec::SectionUpdate {
    fn from(v: SectionUpdate) -> (r: sec::SectionUpdate) {
        sec::SectionUpdate {
            name: v.name,
            rating: match v.rating {
                Some(x) => Some(sec::Rating::from(x)),
                None => None,
            },
            direction: match v.direction {
                Some(x) => Some(sec::Direction::from(x)),
                None => None,
            },
        }
    }
}

impl vstd::std_specs::convert::FromSpecImpl<SectionUpdate> for sec::SectionUpdate {
    open spec fn obeys_from_spec() -> bool {
        true
    }

    open spec fn from_spec(v: SectionUpdate) -> sec::SectionUpdate {
        sec::SectionUpdate {
            name: v.name,
            rating: match v.rating {
                Some(x) => Some(rating_to_core(x)),
                None => None,
            },
            direction: match v.direction {
                Some(x) => Some(direction_to_core(x)),
                None => None,
            },
        }
    }
}

/// The class shown for a region's road class; `Other` when the file's class is unknown to this build.
pub open spec fn road_class_of(v: Option<fmt::RoadClass>) -> RoadClass {
    match v {
        Some(fmt::RoadClass::Motorway) => RoadClass::Motorway,
        Some(fmt::RoadClass::Trunk) => RoadClass::Trunk,
        Some(fmt::RoadClass::Primary) => RoadClass::Primary,
        Some(fmt::RoadClass::Secondary) => RoadClass::Secondary,
        Some(fmt::RoadClass::Tertiary) => RoadClass::Tertiary,
        Some(fmt::RoadClass::Unclassified) => RoadClass::Unclassified,
        Some(fmt::RoadClass::Residential) => RoadClass::Residential,
        Some(fmt::RoadClass::LivingStreet) => RoadClass::LivingStreet,
        Some(fmt::RoadClass::Service) => RoadClass::Service,
        Some(fmt::RoadClass::Track) => RoadClass::Track,
        Some(fmt::RoadClass::Ferry) => RoadClass::Ferry,
        None => RoadClass::Other,
    }
}

impl From<Option<fmt::RoadClass>> for RoadClass {
    fn from(v: Option<fmt::RoadClass>) -> (r: RoadClass) {
        match v {
            Some(fmt::RoadClass::Motorway) => RoadClass::Motorway,
            Some(fmt::RoadClass::Trunk) => RoadClass::Trunk,
            Some(fmt::RoadClass::Primary) => RoadClass::Primary,
            Some(fmt::RoadClass::Secondary) => RoadClass::Secondary,
            Some(fmt::RoadClass::Tertiary) => RoadClass::Tertiary,
            Some(fmt::RoadClass::Unclassified) => RoadClass::Unclassified,
            Some(fmt::RoadClass::Residential) => RoadClass::Residential,
            Some(fmt::RoadClass::LivingStreet) => RoadClass::LivingStreet,
            Some(fmt::RoadClass::Service) => RoadClass::Service,
            Some(fmt::RoadClass::Track) => RoadClass::Track,
            Some(fmt::RoadClass::Ferry) => RoadClass::Ferry,
            None => RoadClass::Other,
        }
    }
}

impl vstd::std_specs::convert::FromSpecImpl<Option<fmt::RoadClass>> for RoadClass {
    open spec fn obeys_from_spec() -> bool {
        true
    }

    open spec fn from_spec(v: Option<fmt::RoadClass>) -> RoadClass {
        road_class_of(v)
    }
}

/// The surface shown for a region's surface; `Unknown` when untagged or unknown to this build.
pub open spec fn surface_of(v: Option<fmt::Surface>) -> Surface {
    match v {
        Some(fmt::Surface::Asphalt) => Surface::Asphalt,
        Some(fmt::Surface::Concrete) => Surface::Concrete,
        Some(fmt::Surface::Paved) => Surface::Paved,
        Some(fmt::Surface::Sett) => Surface::Sett,
        Some(fmt::Surface::Compacted) => Surface::Compacted,
        Some(fmt::Surface::Gravel) => Surface::Gravel,
        Some(fmt::Surface::Dirt) => Surface::Dirt,
        Some(fmt::Surface::Unknown) => Surface::Unknown,
        None => Surface::Unknown,
    }
}

impl From<Option<fmt::Surface>> for Surface {
    fn from(v: Option<fmt::Surface>) -> (r: Surface) {
        match v {
            Some(fmt::Surface::Asphalt) => Surface::Asphalt,
            Some(fmt::Surface::Concrete) => Surface::Concrete,
            Some(fmt::Surface::Paved) => Surface::Paved,
            Some(fmt::Surface::Sett) => Surface::Sett,
            Some(fmt::Surface::Compacted) => Surface::Compacted,
            Some(fmt::Surface::Gravel) => Surface::Gravel,
            Some(fmt::Surface::Dirt) => Surface::Dirt,
            Some(fmt::Surface::Unknown) => Surface::Unknown,
            None => Surface::Unknown,
        }
    }
}

impl vstd::std_specs::convert::FromSpecImpl<Option<fmt::Surface>> for Surface {
    open spec fn obeys_from_spec() -> bool {
        true
    }

    open spec fn from_spec(v: Option<fmt::Surface>) -> Surface {
        surface_of(v)
    }
}

/// A rating as the core stores it.
pub open spec fn rating_to_core(v: Rating) -> sec::Rating {
    match v {
        Rating::Good => sec::Rating::Good,
        Rating::Great => sec::Rating::Great,
        Rating::Epic => sec::Rating::Epic,
    }
}

impl From<Rating> for sec::Rating {
    fn from(v: Rating) -> (r: sec::Rating) {
        match v {
            Rating::Good => sec::Rating::Good,
            Rating::Great => sec::Rating::Great,
            Rating::Epic => sec::Rating::Epic,
        }
    }
}

impl vstd::std_specs::convert::FromSpecImpl<Rating> for sec::Rating {
    open spec fn obeys_from_spec() -> bool {
        true
    }

    open spec fn from_spec(v: Rating) -> sec::Rating {
        rating_to_core(v)
    }
}

/// A stored rating as the app sees it.
pub open spec fn rating_from_core(v: sec::Rating) -> Rating {
    match v {
        sec::Rating::Good => Rating::Good,
        sec::Rating::Great => Rating::Great,
        sec::Rating::Epic => Rating::Epic,
    }
}

impl From<sec::Rating> for Rating {
    fn from(v: sec::Rating) -> (r: Rating) {
        match v {
            sec::Rating::Good => Rating::Good,
            sec::Rating::Great => Rating::Great,
            sec::Rating::Epic => Rating::Epic,
        }
    }
}

impl vstd::std_specs::convert::FromSpecImpl<sec::Rating> for Rating {
    open spec fn obeys_from_spec() -> bool {
        true
    }

    open spec fn from_spec(v: sec::Rating) -> Rating {
        rating_from_core(v)
    }
}

/// A direction as the core stores it.
pub open spec fn direction_to_core(v: Direction) -> sec::Direction {
    match v {
        Direction::Both => sec::Direction::Both,
        Direction::Forward => sec::Direction::Forward,
    }
}

impl From<Direction> for sec::Direction {
    fn from(v: Direction) -> (r: sec::Direction) {
        match v {
            Direction::Both => sec::Direction::Both,
            Direction::Forward => sec::Direction::Forward,
        }
    }
}

impl vstd::std_specs::convert::FromSpecImpl<Direction> for sec::Direction {
    open spec fn obeys_from_spec() -> bool {
        true
    }

    open spec fn from_spec(v: Direction) -> sec::Direction {
        direction_to_core(v)
    }
}

/// A stored direction as the app sees it.
pub open spec fn direction_from_core(v: sec::Direction) -> Direction {
    match v {
        sec::Direction::Both => Direction::Both,
        sec::Direction::Forward => Direction::Forward,
    }
}

impl From<sec::Direction> for Direction {
    fn from(v: sec::Direction) -> (r: Direction) {
        match v {
            sec::Direction::Both => Direction::Both,
            sec::Direction::Forward => Direction::Forward,
        }
    }
}

impl vstd::std_specs::convert::FromSpecImpl<sec::Direction> for Direction {
    open spec fn obeys_from_spec() -> bool {
        true
    }

    open spec fn from_spec(v: sec::Direction) -> Direction {
        direction_from_core(v)
    }
}

/// A source as the core stores it.
pub open spec fn source_to_core(v: SectionSource) -> sec::Source {
    match v {
        SectionSource::OnMap => sec::Source::OnMap,
        SectionSource::Tag => sec::Source::Tag,
        SectionSource::Track => sec::Source::Track,
        SectionSource::Import => sec::Source::Import,
    }
}

impl From<SectionSource> for sec::Source {
    fn from(v: SectionSource) -> (r: sec::Source) {
        match v {
            SectionSource::OnMap => sec::Source::OnMap,
            SectionSource::Tag => sec::Source::Tag,
            SectionSource::Track => sec::Source::Track,
            SectionSource::Import => sec::Source::Import,
        }
    }
}

impl vstd::std_specs::convert::FromSpecImpl<SectionSource> for sec::Source {
    open spec fn obeys_from_spec() -> bool {
        true
    }

    open spec fn from_spec(v: SectionSource) -> sec::Source {
        source_to_core(v)
    }
}

/// A stored source as the app sees it.
pub open spec fn source_from_core(v: sec::Source) -> SectionSource {
    match v {
        sec::Source::OnMap => SectionSource::OnMap,
        sec::Source::Tag => SectionSource::Tag,
        sec::Source::Track => SectionSource::Track,
        sec::Source::Import => SectionSource::Import,
    }
}

impl From<sec::Source> for SectionSource {
    fn from(v: sec::Source) -> (r: SectionSource) {
        match v {
            sec::Source::OnMap => SectionSource::OnMap,
            sec::Source::Tag => SectionSource::Tag,
            sec::Source::Track => SectionSource::Track,
            sec::Source::Import => SectionSource::Import,
        }
    }
}

impl vstd::std_specs::convert::FromSpecImpl<sec::Source> for SectionSource {
    open spec fn obeys_from_spec() -> bool {
        true
    }

    open spec fn from_spec(v: sec::Source) -> SectionSource {
        source_from_core(v)
    }
}

/// A stored section status as the app sees it.
pub open spec fn status_from_core(v: sec::Status) -> SectionStatus {
    match v {
        sec::Status::Matched => SectionStatus::Matched,
        sec::Status::NeedsRematch => SectionStatus::NeedsRematch,
        sec::Status::Unmatched => SectionStatus::Unmatched,
    }
}

impl From<sec::Status> for SectionStatus {
    fn from(v: sec::Status) -> (r: SectionStatus) {
        match v {
            sec::Status::Matched => SectionStatus::Matched,
            sec::Status::NeedsRematch => SectionStatus::NeedsRematch,
            sec::Status::Unmatched => SectionStatus::Unmatched,
        }
    }
}

impl vstd::std_specs::convert::FromSpecImpl<sec::Status> for SectionStatus {
    open spec fn obeys_from_spec() -> bool {
        true
    }

    open spec fn from_spec(v: sec::Status) -> SectionStatus {
        status_from_core(v)
    }
}

/// A tag status as the core stores it.
pub open spec fn tag_status_to_core(v: TagStatus) -> tag::TagStatus {
    match v {
        TagStatus::Pending => tag::TagStatus::Pending,
        TagStatus::Used => tag::TagStatus::Used,
        TagStatus::Discarded => tag::TagStatus::Discarded,
    }
}

impl From<TagStatus> for tag::TagStatus {
    fn from(v: TagStatus) -> (r: tag::TagStatus) {
        match v {
            TagStatus::Pending => tag::TagStatus::Pending,
            TagStatus::Used => tag::TagStatus::Used,
            TagStatus::Discarded => tag::TagStatus::Discarded,
        }
    }
}

impl vstd::std_specs::convert::FromSpecImpl<TagStatus> for tag::TagStatus {
    open spec fn obeys_from_spec() -> bool {
        true
    }

    open spec fn from_spec(v: TagStatus) -> tag::TagStatus {
        tag_status_to_core(v)
    }
}

/// A stored tag status as the app sees it.
pub open spec fn tag_status_from_core(v: tag::TagStatus) -> TagStatus {
    match v {
        tag::TagStatus::Pending => TagStatus::Pending,
        tag::TagStatus::Used => TagStatus::Used,
        tag::TagStatus::Discarded => TagStatus::Discarded,
    }
}

impl From<tag::TagStatus> for TagStatus {
    fn from(v: tag::TagStatus) -> (r: TagStatus) {
        match v {
            tag::TagStatus::Pending => TagStatus::Pending,
            tag::TagStatus::Used => TagStatus::Used,
            tag::TagStatus::Discarded => TagStatus::Discarded,
        }
    }
}

impl vstd::std_specs::convert::FromSpecImpl<tag::TagStatus> for TagStatus {
    open spec fn obeys_from_spec() -> bool {
        true
    }

    open spec fn from_spec(v: tag::TagStatus) -> TagStatus {
        tag_status_from_core(v)
    }
}

/// An export format as the core names it.
pub open spec fn format_to_core(v: ExportFormat) -> archive::ExportFormat {
    match v {
        ExportFormat::GeoJson => archive::ExportFormat::GeoJson,
        ExportFormat::Gzip => archive::ExportFormat::Gzip,
        ExportFormat::Zip => archive::ExportFormat::Zip,
        ExportFormat::TarGz => archive::ExportFormat::TarGz,
    }
}

impl From<ExportFormat> for archive::ExportFormat {
    fn from(v: ExportFormat) -> (r: archive::ExportFormat) {
        match v {
            ExportFormat::GeoJson => archive::ExportFormat::GeoJson,
            ExportFormat::Gzip => archive::ExportFormat::Gzip,
            ExportFormat::Zip => archive::ExportFormat::Zip,
            ExportFormat::TarGz => archive::ExportFormat::TarGz,
        }
    }
}

impl vstd::std_specs::convert::FromSpecImpl<ExportFormat> for archive::ExportFormat {
    open spec fn obeys_from_spec() -> bool {
        true
    }

    open spec fn from_spec(v: ExportFormat) -> archive::ExportFormat {
        format_to_core(v)
    }
}

/// A way span as the core stores it.
pub open spec fn span_to_core(v: WaySpan) -> sec::WaySpan {
    sec::WaySpan { way_id: v.way_id, from_idx: v.from_idx, to_idx: v.to_idx }
}

impl From<WaySpan> for sec::WaySpan {
    fn from(v: WaySpan) -> (r: sec::WaySpan) {
        sec::WaySpan { way_id: v.way_id, from_idx: v.from_idx, to_idx: v.to_idx }
    }
}

impl vstd::std_specs::convert::FromSpecImpl<WaySpan> for sec::WaySpan {
    open spec fn obeys_from_spec() -> bool {
        true
    }

    open spec fn from_spec(v: WaySpan) -> sec::WaySpan {
        span_to_core(v)
    }
}

/// A stored way span as the app sees it.
pub open spec fn span_from_core(v: sec::WaySpan) -> WaySpan {
    WaySpan { way_id: v.way_id, from_idx: v.from_idx, to_idx: v.to_idx }
}

impl From<sec::WaySpan> for WaySpan {
    fn from(v: sec::WaySpan) -> (r: WaySpan) {
        WaySpan { way_id: v.way_id, from_idx: v.from_idx, to_idx: v.to_idx }
    }
}

impl vstd::std_specs::convert::FromSpecImpl<sec::WaySpan> for WaySpan {
    open spec fn obeys_from_spec() -> bool {
        true
    }

    open spec fn from_spec(v: sec::WaySpan) -> WaySpan {
        span_from_core(v)
    }
}

/// What an import did, as the app sees it.
pub open spec fn report_from_core(v: exchange::ImportReport) -> ImportReport {
    ImportReport { added: v.added, skipped: v.skipped, replaced: v.replaced, unmatched: v.unmatched }
}

impl From<exchange::ImportReport> for ImportReport {
    fn from(v: exchange::ImportReport) -> (r: ImportReport) {
        ImportReport { added: v.added, skipped: v.skipped, replaced: v.replaced, unmatched: v.unmatched }
    }
}

impl vstd::std_specs::convert::FromSpecImpl<exchange::ImportReport> for ImportReport {
    open spec fn obeys_from_spec() -> bool {
        true
    }

    open spec fn from_spec(v: exchange::ImportReport) -> ImportReport {
        report_from_core(v)
    }
}

/// What an append did, as the app sees it.
pub open spec fn append_from_core(v: types::Appended) -> TrackAppend {
    TrackAppend { added: v.added, point_count: v.point_count }
}

impl From<types::Appended> for TrackAppend {
    fn from(v: types::Appended) -> (r: TrackAppend) {
        TrackAppend { added: v.added, point_count: v.point_count }
    }
}

impl vstd::std_specs::convert::FromSpecImpl<types::Appended> for TrackAppend {
    open spec fn obeys_from_spec() -> bool {
        true
    }

    open spec fn from_spec(v: types::Appended) -> TrackAppend {
        append_from_core(v)
    }
}

/// The road types a route avoids, as the app sees them.
pub open spec fn avoid_from_core(v: types::Avoid) -> Avoid {
    Avoid { motorways: v.motorways, ferries: v.ferries }
}

impl From<types::Avoid> for Avoid {
    fn from(v: types::Avoid) -> (r: Avoid) {
        Avoid { motorways: v.motorways, ferries: v.ferries }
    }
}

impl vstd::std_specs::convert::FromSpecImpl<types::Avoid> for Avoid {
    open spec fn obeys_from_spec() -> bool {
        true
    }

    open spec fn from_spec(v: types::Avoid) -> Avoid {
        avoid_from_core(v)
    }
}

/// Every class a region file can hold shows as itself, never as `Other`;
/// every surface but the untagged one as itself.
pub proof fn known_kinds_show_as_themselves(c: fmt::RoadClass, s: fmt::Surface)
    ensures
        road_class_of(Some(c)) != RoadClass::Other,
        s != fmt::Surface::Unknown ==> surface_of(Some(s)) != Surface::Unknown,
        road_class_of(None) == RoadClass::Other,
        surface_of(None) == Surface::Unknown,
{
}

/// Ratings, directions, sources and tag statuses cross to the core and
/// back unchanged; so do way spans.
pub proof fn conversions_round_trip(r: Rating, d: Direction, s: SectionSource, t: TagStatus, w: WaySpan)
    ensures
        rating_from_core(rating_to_core(r)) == r,
        direction_from_core(direction_to_core(d)) == d,
        source_from_core(source_to_core(s)) == s,
        tag_status_from_core(tag_status_to_core(t)) == t,
        span_from_core(span_to_core(w)) == w,
{
}

/// The core's ratings, directions, sources and tag statuses cross to the
/// app and back unchanged.
pub proof fn core_values_round_trip(r: sec::Rating, d: sec::Direction, s: sec::Source, t: tag::TagStatus)
    ensures
        rating_to_core(rating_from_core(r)) == r,
        direction_to_core(direction_from_core(d)) == d,
        source_to_core(source_from_core(s)) == s,
        tag_status_to_core(tag_status_from_core(t)) == t,
{
}

} // verus!

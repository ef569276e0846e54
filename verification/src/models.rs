//! Shared data model: the fixed enumerations coming from the remote API and
//! the persistence rows, the entity records the feeds reconcile, and the
//! status and error types the rest of the crate speaks in.

use vstd::prelude::*;

verus! {

/// The four disciplines a difficulty or a group membership can be tagged with.
#[derive(Debug, Clone, Copy, PartialEq, Eq, Hash, Structural)]
pub enum OsuGamemode {
    Osu,
    Mania,
    Taiko,
    Fruits,
}

impl OsuGamemode {
    /// Human-readable label, as shown in notification text.
    pub fn display_name(&self) -> (r: &'static str)
        ensures
            r@ == self.spec_display_name(),
    {
        match *self {
            OsuGamemode::Osu => "osu!Standard",
            OsuGamemode::Mania => "osu!Mania",
            OsuGamemode::Taiko => "osu!Taiko",
            OsuGamemode::Fruits => "osu!Catch",
        }
    }

    pub open spec fn spec_display_name(self) -> Seq<char> {
        match self {
            OsuGamemode::Osu => "osu!Standard"@,
            OsuGamemode::Mania => "osu!Mania"@,
            OsuGamemode::Taiko => "osu!Taiko"@,
            OsuGamemode::Fruits => "osu!Catch"@,
        }
    }
}

/// The groups the remote site reports; eight of them are tracked by the
/// group feed, the rest only appear in scraped member records.
#[derive(Debug, Clone, Copy, PartialEq, Eq, Hash, Structural)]
pub enum OsuGroup {
    BeatmapNominator,
    ProbationaryBeatmapNominator,
    NominationAssessmentTeam,
    TournamentCommittee,
    GlobalModerationTeam,
    Developer,
    FeatureArtist,
    BeatmapSpotlightCurator,
    ProjectLoved,
    TechnicalSupportTeam,
    Ppy,
    Bot,
    Alumni,
}

impl OsuGroup {
    pub open spec fn spec_id(self) -> u8 {
        match self {
            OsuGroup::BeatmapNominator => 28,
            OsuGroup::ProbationaryBeatmapNominator => 32,
            OsuGroup::NominationAssessmentTeam => 7,
            OsuGroup::GlobalModerationTeam => 4,
            OsuGroup::TournamentCommittee => 50,
            OsuGroup::Developer => 11,
            OsuGroup::FeatureArtist => 35,
            OsuGroup::BeatmapSpotlightCurator => 48,
            OsuGroup::ProjectLoved => 31,
            OsuGroup::TechnicalSupportTeam => 22,
            OsuGroup::Ppy => 33,
            OsuGroup::Bot => 29,
            OsuGroup::Alumni => 16,
        }
    }

    /// Numeric identifier of the group on the remote site, used to build the
    /// group page URL.
    pub fn id(&self) -> (r: u8)
        ensures
            r == self.spec_id(),
    {
        match *self {
            OsuGroup::BeatmapNominator => 28,
            OsuGroup::ProbationaryBeatmapNominator => 32,
            OsuGroup::NominationAssessmentTeam => 7,
            OsuGroup::GlobalModerationTeam => 4,
            OsuGroup::TournamentCommittee => 50,
            OsuGroup::Developer => 11,
            OsuGroup::FeatureArtist => 35,
            OsuGroup::BeatmapSpotlightCurator => 48,
            OsuGroup::ProjectLoved => 31,
            OsuGroup::TechnicalSupportTeam => 22,
            OsuGroup::Ppy => 33,
            OsuGroup::Bot => 29,
            OsuGroup::Alumni => 16,
        }
    }

    /// The eight groups the group feed reconciles each cycle.
    pub fn tracked_groups() -> (r: Vec<OsuGroup>)
        ensures
            r@ == Self::spec_tracked_groups(),
    {
        let mut v: Vec<OsuGroup> = Vec::new();
        v.push(OsuGroup::BeatmapNominator);
        v.push(OsuGroup::ProbationaryBeatmapNominator);
        v.push(OsuGroup::NominationAssessmentTeam);
        v.push(OsuGroup::GlobalModerationTeam);
        v.push(OsuGroup::Developer);
        v.push(OsuGroup::FeatureArtist);
        v.push(OsuGroup::BeatmapSpotlightCurator);
        v.push(OsuGroup::ProjectLoved);
        proof {
            assert(v@ =~= Self::spec_tracked_groups());
        }
        v
    }

    pub open spec fn spec_tracked_groups() -> Seq<OsuGroup> {
        seq![
            OsuGroup::BeatmapNominator,
            OsuGroup::ProbationaryBeatmapNominator,
            OsuGroup::NominationAssessmentTeam,
            OsuGroup::GlobalModerationTeam,
            OsuGroup::Developer,
            OsuGroup::FeatureArtist,
            OsuGroup::BeatmapSpotlightCurator,
            OsuGroup::ProjectLoved,
        ]
    }
}

/// Ranking state of a beatmapset, as encoded by the remote API.
#[derive(Debug, Clone, Copy, PartialEq, Eq, Structural)]
pub enum BeatmapStatus {
    Ranked,
    Qualified,
    Loved,
    Pending,
    Wip,
    Graveyard,
}

impl BeatmapStatus {
    /// Decodes the numeric status the remote API serves; unknown codes fall
    /// back to `Qualified`.
    pub fn from_code(value: i8) -> (r: BeatmapStatus)
        ensures
            r == BeatmapStatus::spec_from_code(value),
    {
        match value {
            1 => BeatmapStatus::Ranked,
            3 => BeatmapStatus::Qualified,
            4 => BeatmapStatus::Loved,
            0 => BeatmapStatus::Pending,
            -1 => BeatmapStatus::Wip,
            -2 => BeatmapStatus::Graveyard,
            _ => BeatmapStatus::Qualified,
        }
    }

    pub open spec fn spec_from_code(value: i8) -> BeatmapStatus {
        if value == 1 {
            BeatmapStatus::Ranked
        } else if value == 3 {
            BeatmapStatus::Qualified
        } else if value == 4 {
            BeatmapStatus::Loved
        } else if value == 0 {
            BeatmapStatus::Pending
        } else if value == -1 {
            BeatmapStatus::Wip
        } else if value == -2 {
            BeatmapStatus::Graveyard
        } else {
            BeatmapStatus::Qualified
        }
    }

    /// Human-readable label; every state past qualification collapses to
    /// "Disqualified" in notification text.
    pub fn display_name(&self) -> (r: &'static str)
        ensures
            r@ == self.spec_display_name(),
    {
        match *self {
            BeatmapStatus::Ranked => "Ranked",
            BeatmapStatus::Qualified => "Qualified",
            BeatmapStatus::Loved => "Loved",
            BeatmapStatus::Pending => "Disqualified",
            BeatmapStatus::Wip => "Disqualified",
            BeatmapStatus::Graveyard => "Disqualified",
        }
    }

    pub open spec fn spec_display_name(self) -> Seq<char> {
        match self {
            BeatmapStatus::Ranked => "Ranked"@,
            BeatmapStatus::Qualified => "Qualified"@,
            BeatmapStatus::Loved => "Loved"@,
            BeatmapStatus::Pending => "Disqualified"@,
            BeatmapStatus::Wip => "Disqualified"@,
            BeatmapStatus::Graveyard => "Disqualified"@,
        }
    }
}

/// One member record scraped from a group page or loaded from the store:
/// identity, profile fields, and the (group, disciplines) memberships.
#[derive(Debug, Clone, PartialEq, Eq)]
pub struct OsuUser {
    pub id: i32,
    pub username: String,
    pub avatar_url: String,
    pub member_of: Vec<(OsuGroup, Vec<OsuGamemode>)>,
}

/// Discipline-level change of one member inside one group.
#[derive(Debug, Clone, PartialEq, Eq)]
pub struct GamemodeUpdate {
    pub group: OsuGroup,
    pub added: Vec<OsuGamemode>,
    pub removed: Vec<OsuGamemode>,
}

/// Three-way difference between the remote and the stored group snapshot.
#[derive(Debug)]
pub struct Diff {
    pub added: Vec<OsuUser>,
    pub removed: Vec<OsuUser>,
    pub updated: Vec<(OsuUser, GamemodeUpdate)>,
}

/// One difficulty of a beatmapset; only the fields the feed logic reads.
#[derive(Debug, Clone)]
pub struct Beatmap {
    pub id: i32,
    pub mode: OsuGamemode,
    pub ranked_status: BeatmapStatus,
}

/// One nominator entry of a beatmapset.
#[derive(Debug, Clone)]
pub struct Nominators {
    pub user_id: i32,
}

/// A beatmapset as the feed logic sees it; dates are unix timestamps.
#[derive(Debug, Clone)]
pub struct Beatmapset {
    pub id: i32,
    pub title: String,
    pub artist: String,
    pub mapper: String,
    pub beatmaps: Vec<Beatmap>,
    pub ranked_status: BeatmapStatus,
    pub current_nominations: Vec<Nominators>,
    pub ranked_date_unix: Option<i64>,
    pub submitted_date_unix: Option<i64>,
}

/// One page of the paginated qualified-set search: the ids it lists and the
/// cursor of the next page, if any.
#[derive(Debug, Clone)]
pub struct SearchResponse {
    pub beatmapset_ids: Vec<i32>,
    pub cursor_string: Option<String>,
}

/// Row of the tracked-beatmapset table.
#[derive(Debug, Clone, Copy, PartialEq, Eq, Structural)]
pub struct Beatmapsets {
    pub id: i32,
}

/// Row of the beatmapset-subscription table: one (user, beatmapset) edge.
#[derive(Debug, Clone, Copy, PartialEq, Eq, Structural)]
pub struct BeatmapsetSubscriptions {
    pub id: i32,
    pub user_id: i64,
    pub beatmapset_id: i32,
}

/// Kind of a channel-level feed subscription.
#[derive(Debug, Clone, Copy, PartialEq, Eq, Structural)]
pub enum ChannelKind {
    Mapfeed,
    Music,
    Groups,
}

/// Row of the channel-subscription table.
#[derive(Debug, Clone, Copy, PartialEq, Eq, Structural)]
pub struct Subscriptions {
    pub channel_id: i64,
    pub kind: ChannelKind,
}

/// Row of the member table.
#[derive(Debug, Clone)]
pub struct OsuUsers {
    pub id: i32,
    pub username: String,
    pub avatar_url: String,
}

/// Row of the membership table: member `user_id` belongs to `member_of`.
#[derive(Debug, Clone, Copy, PartialEq, Eq, Structural)]
pub struct OsuUserGroups {
    pub id: i32,
    pub user_id: i32,
    pub member_of: OsuGroup,
}

/// Row of the per-membership discipline table.
#[derive(Debug, Clone, Copy, PartialEq, Eq, Structural)]
pub struct OsuUserGroupGamemodes {
    pub id: i32,
    pub user_group_id: i32,
    pub gamemode: OsuGamemode,
}

/// Whether to add or to drop a subscription.
#[derive(Debug, Clone, Copy, PartialEq, Eq, Structural)]
pub enum SubscriptionMode {
    Subscribe,
    Unsubscribe,
}

/// Which channel feed a subscription command targets.
#[derive(Debug, Clone, Copy, PartialEq, Eq, Structural)]
pub enum ChannelType {
    Mapfeed(SubscriptionMode),
    Music(SubscriptionMode),
    Groups(SubscriptionMode),
}

/// Outcome of adding a subscriber: duplicates are reported, never an error.
#[derive(Debug, Clone, Copy, PartialEq, Eq, Structural)]
pub enum UserAdditionStatus {
    UserAdded,
    UserAlreadyExists,
}

/// Outcome of removing a subscriber: a missing edge is reported, never an
/// error.
#[derive(Debug, Clone, Copy, PartialEq, Eq, Structural)]
pub enum UserDeletionStatus {
    UserRemoved,
    UserDoesNotExist,
}

/// Why a subscribe/unsubscribe command was rejected.
#[derive(Debug, Clone, Copy, PartialEq, Eq, Structural)]
pub enum SubscriptionError {
    /// The pattern engine failed while matching the link.
    RegexError,
    /// The link does not point at a beatmapset.
    InvalidLink,
    /// The link matched but the id group was absent.
    NonCapture,
    /// The id group did not parse as a 32-bit integer.
    ParseError,
    /// The store has no such beatmapset.
    DatabaseError,
}

/// Why the audio feature refuses a fetched payload. Failures of the fetch
/// itself (a broken pipe, a timeout) stay with the caller that ran it.
#[derive(Debug, Clone, Copy, PartialEq, Eq, Structural)]
pub enum DownloadError {
    /// The payload is larger than the feature forwards.
    FileTooLarge,
}

/// Why no member list could be cut out of a scraped group page; tells a
/// missing marker apart from a malformed one.
#[derive(Debug, Clone, Copy, PartialEq, Eq, Structural)]
pub enum ExtractError {
    /// The opening marker is nowhere on the page.
    MissingStartTag,
    /// The opening marker is there, but no closing marker follows it.
    MissingEndTag,
}

} // verus!

//! What the monitor shows after a refresh: the drives it watches, each
//! with its space.

use vstd::prelude::*;
use crate::config::{alert_for, Config, ConfigView};
use crate::space::{fits, get_space_info, space_of, used_percent, FsStats, SpaceInfo};
use crate::udisks::{
    catalog_drives, deduplicated, enumerate_drives, DriveInfo, DriveRecord, ManagedObjects,
};

verus! {

/// Combined drive and space data for display.
#[derive(Debug)]
pub struct DriveStatus {
    pub info: DriveInfo,
    pub space: SpaceInfo,
}

/// What a [`DriveStatus`] says, as plain values.
pub ghost struct StatusRecord {
    pub info: DriveRecord,
    pub space: SpaceInfo,
}

impl View for DriveStatus {
    type V = StatusRecord;

    open spec fn view(&self) -> StatusRecord {
        StatusRecord { info: self.info@, space: self.space }
    }
}

impl DeepView for DriveStatus {
    type V = StatusRecord;

    open spec fn deep_view(&self) -> StatusRecord {
        self@
    }
}

impl Clone for DriveStatus {
    fn clone(&self) -> (copy: Self)
        ensures
            copy@ == self@,
    {
        DriveStatus { info: self.info.clone(), space: self.space }
    }
}

/// A drive with what the filesystem-statistics query said of its mount
/// point, or `None` where the query failed.
#[derive(Debug)]
pub struct Probe {
    pub info: DriveInfo,
    pub stats: Option<FsStats>,
}

/// What a [`Probe`] says, as plain values.
pub ghost struct ProbeRecord {
    pub info: DriveRecord,
    pub stats: Option<FsStats>,
}

impl View for Probe {
    type V = ProbeRecord;

    open spec fn view(&self) -> ProbeRecord {
        ProbeRecord { info: self.info@, stats: self.stats }
    }
}

impl DeepView for Probe {
    type V = ProbeRecord;

    open spec fn deep_view(&self) -> ProbeRecord {
        self@
    }
}

/// Whether two paths are equal as `std::path::Path` compares them:
/// component by component.
pub uninterp spec fn path_eq(a: Seq<char>, b: Seq<char>) -> bool;

/// Compares two paths with the `==` of `std::path::Path`, which goes by
/// their components and so looks past a trailing separator.
#[verifier::external_body]
fn same_path(a: &str, b: &str) -> (same: bool)
    ensures
        same == path_eq(a@, b@),
{
    std::path::Path::new(a) == std::path::Path::new(b)
}

/// Whether some entry of `monitored` is the path `mount_point`.
pub open spec fn names_path(monitored: Seq<Seq<char>>, mount_point: Seq<char>) -> bool {
    exists|i: int| 0 <= i < monitored.len() && path_eq(mount_point, #[trigger] monitored[i])
}

/// Whether `drive` is watched: with no mount points configured, every
/// drive that is not removable; else the drives at the configured mount
/// points.
pub open spec fn is_monitored(monitored: Seq<Seq<char>>, drive: DriveRecord) -> bool {
    if monitored.len() == 0 {
        !drive.removable
    } else {
        names_path(monitored, drive.mount_point)
    }
}

/// The drives of `all` that are watched, in order.
pub open spec fn monitored_among(monitored: Seq<Seq<char>>, all: Seq<DriveRecord>) -> Seq<
    DriveRecord,
> {
    all.filter(|drive: DriveRecord| is_monitored(monitored, drive))
}

fn is_watched(monitored: &Vec<String>, drive: &DriveInfo) -> (watched: bool)
    ensures
        watched == is_monitored(monitored.deep_view(), drive@),
{
    if monitored.len() == 0 {
        return !drive.removable;
    }
    let mut i: usize = 0;
    while i < monitored.len()
        invariant
            i <= monitored@.len(),
            forall|k: int|
                0 <= k < i ==> !path_eq(drive@.mount_point, #[trigger] monitored.deep_view()[k]),
        decreases monitored@.len() - i,
    {
        if same_path(drive.mount_point.as_str(), monitored[i].as_str()) {
            assert(path_eq(drive@.mount_point, monitored.deep_view()[i as int]));
            return true;
        }
        i = i + 1;
    }
    false
}

/// Keeps the drives that are watched: those at the configured mount
/// points, or every drive that is not removable where none is configured.
pub fn select_monitored(all: Vec<DriveInfo>, monitored: &Vec<String>) -> (watched: Vec<DriveInfo>)
    ensures
        watched.deep_view() == monitored_among(monitored.deep_view(), all.deep_view()),
{
    let ghost listed = all@;
    let ghost whole = all.deep_view();
    let ghost keep = |drive: DriveRecord| is_monitored(monitored.deep_view(), drive);
    let mut watched: Vec<DriveInfo> = Vec::new();
    proof {
        reveal(Seq::filter);
        assert(whole.take(0) =~= Seq::<DriveRecord>::empty());
        assert(watched.deep_view() =~= Seq::<DriveRecord>::empty());
    }
    for drive in iter: all
        invariant
            iter.seq() == listed,
            whole.len() == listed.len(),
            forall|k: int| 0 <= k < listed.len() ==> whole[k] == (#[trigger] listed[k])@,
            keep == |drive: DriveRecord| is_monitored(monitored.deep_view(), drive),
            watched.deep_view() == whole.take(iter.index() as int).filter(keep),
    {
        let ghost before = watched.deep_view();
        let ghost at = iter.index() as int;
        let stays: bool = is_watched(monitored, &drive);
        proof {
            reveal(Seq::filter);
            let upto = whole.take(at + 1);
            assert(upto.drop_last() =~= whole.take(at));
            assert(upto.last() == drive@);
            assert(stays == keep(upto.last()));
        }
        if stays {
            watched.push(drive);
            assert(watched.deep_view() =~= before.push(drive@));
        }
    }
    assert(whole.take(whole.len() as int) =~= whole);
    watched
}

/// The drives of a catalog that the configuration asks to watch.
pub fn monitored_drives(config: &Config, objects: &ManagedObjects) -> (watched: Vec<DriveInfo>)
    ensures
        watched.deep_view() == monitored_among(
            config@.monitored_drives,
            deduplicated(catalog_drives(objects.deep_view(), objects.deep_values())),
        ),
{
    let all: Vec<DriveInfo> = enumerate_drives(objects);
    select_monitored(all, &config.monitored_drives)
}

/// Whether a probe yields a status: the query answered, and with byte
/// counts that fit.
pub open spec fn is_answered(probe: ProbeRecord) -> bool {
    probe.stats is Some && fits(probe.stats->0)
}

/// The statuses of the first `n` probes: one for each probe that yields
/// one, in order.
pub open spec fn statuses_of_first(probes: Seq<ProbeRecord>, n: int) -> Seq<StatusRecord>
    decreases n,
{
    if n <= 0 {
        Seq::empty()
    } else if is_answered(probes[n - 1]) {
        statuses_of_first(probes, n - 1).push(
            StatusRecord { info: probes[n - 1].info, space: space_of(probes[n - 1].stats->0) },
        )
    } else {
        statuses_of_first(probes, n - 1)
    }
}

/// The statuses that `probes` yield.
pub open spec fn statuses_of(probes: Seq<ProbeRecord>) -> Seq<StatusRecord> {
    statuses_of_first(probes, probes.len() as int)
}

/// Turns probes into statuses. A drive whose query failed is left out of
/// this round; the others are not affected.
pub fn build_statuses(probes: Vec<Probe>) -> (statuses: Vec<DriveStatus>)
    ensures
        statuses.deep_view() == statuses_of(probes.deep_view()),
{
    let ghost listed = probes@;
    let ghost whole = probes.deep_view();
    let mut statuses: Vec<DriveStatus> = Vec::new();
    assert(statuses.deep_view() =~= Seq::<StatusRecord>::empty());
    for probe in iter: probes
        invariant
            iter.seq() == listed,
            whole.len() == listed.len(),
            forall|k: int| 0 <= k < listed.len() ==> whole[k] == (#[trigger] listed[k])@,
            statuses.deep_view() == statuses_of_first(whole, iter.index() as int),
    {
        let ghost before = statuses.deep_view();
        assert(whole[iter.index() as int] == probe@);
        let answered: Option<SpaceInfo> = match &probe.stats {
            Some(stats) => get_space_info(stats),
            None => None,
        };
        if let Some(space) = answered {
            let ghost info = probe.info@;
            statuses.push(DriveStatus { info: probe.info, space });
            assert(statuses.deep_view() =~= before.push(StatusRecord { info, space }));
        }
    }
    statuses
}

/// Whether the usage of `status` has reached the threshold that its alert
/// settings give.
pub open spec fn warns(config: ConfigView, status: StatusRecord) -> bool {
    used_percent(status.space) >= alert_for(config, status.info.mount_point).threshold
}

impl DriveStatus {
    /// Whether the drive's usage has reached the threshold that its alert
    /// settings give, be its alerts enabled or not.
    pub fn is_warning(&self, config: &Config) -> (warning: bool)
        ensures
            warning == warns(config@, self@),
    {
        let alert_config = config.get_drive_alert(self.info.mount_point.as_str());
        self.space.percent_used() >= alert_config.threshold
    }
}

} // verus!

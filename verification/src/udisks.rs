//! Mounted filesystems as the device-management service describes them:
//! reading them out of its property catalog and collapsing the mounts that
//! share a device.

use vstd::prelude::*;
use vstd::string::*;
use crate::strmap::StrMap;
use crate::text::{
    final_segment, home_prefix, is_root, last_segment, root_path, starts_with_home, text_eq,
};
use crate::value::{byte_array, decode_bytes, decode_text, DecodeError, Value, ValueView};

verus! {

/// The properties of one capability, by name.
pub type Properties = StrMap<Value>;

/// The capabilities of one object, by name.
pub type Interfaces = StrMap<StrMap<Value>>;

/// The catalog of managed objects, by object path.
pub type ManagedObjects = StrMap<StrMap<StrMap<Value>>>;

/// What [`Properties`] hold, as plain values.
pub type PropertiesView = Map<Seq<char>, ValueView>;

/// What [`Interfaces`] hold, as plain values.
pub type InterfacesView = Map<Seq<char>, Map<Seq<char>, ValueView>>;

/// What [`ManagedObjects`] hold, as plain values.
pub type ObjectsView = Map<Seq<char>, Map<Seq<char>, Map<Seq<char>, ValueView>>>;

/// Information about a mounted filesystem.
#[derive(Debug)]
pub struct DriveInfo {
    /// Mount point path.
    pub mount_point: String,
    /// Filesystem label, if any.
    pub label: Option<String>,
    /// Device path (e.g., /dev/nvme0n1p1).
    pub device: String,
    /// Filesystem type (e.g., ext4, btrfs).
    pub fs_type: String,
    /// Drive model name, if available.
    pub model: Option<String>,
    /// Whether this is a removable drive.
    pub removable: bool,
}

/// What a [`DriveInfo`] says, as plain values.
pub ghost struct DriveRecord {
    pub mount_point: Seq<char>,
    pub label: Option<Seq<char>>,
    pub device: Seq<char>,
    pub fs_type: Seq<char>,
    pub model: Option<Seq<char>>,
    pub removable: bool,
}

impl View for DriveInfo {
    type V = DriveRecord;

    open spec fn view(&self) -> DriveRecord {
        DriveRecord {
            mount_point: self.mount_point@,
            label: self.label.deep_view(),
            device: self.device@,
            fs_type: self.fs_type@,
            model: self.model.deep_view(),
            removable: self.removable,
        }
    }
}

impl DeepView for DriveInfo {
    type V = DriveRecord;

    open spec fn deep_view(&self) -> DriveRecord {
        self@
    }
}

fn clone_opt(text: &Option<String>) -> (copy: Option<String>)
    ensures
        copy.deep_view() == text.deep_view(),
{
    match text {
        Some(s) => Some(s.clone()),
        None => None,
    }
}

impl Clone for DriveInfo {
    fn clone(&self) -> (copy: Self)
        ensures
            copy@ == self@,
    {
        DriveInfo {
            mount_point: self.mount_point.clone(),
            label: clone_opt(&self.label),
            device: self.device.clone(),
            fs_type: self.fs_type.clone(),
            model: clone_opt(&self.model),
            removable: self.removable,
        }
    }
}

/// Name of the capability that a mounted filesystem exposes.
pub const FILESYSTEM_INTERFACE: &'static str = "org.freedesktop.UDisks2.Filesystem";

/// Name of the capability that a block device exposes.
pub const BLOCK_INTERFACE: &'static str = "org.freedesktop.UDisks2.Block";

/// Name of the capability that a drive exposes.
pub const DRIVE_INTERFACE: &'static str = "org.freedesktop.UDisks2.Drive";

/// The mount point that one element of a `MountPoints` array stands for:
/// the element is a byte sequence, and its bytes decode.
pub open spec fn mount_point_of(item: ValueView) -> Option<Seq<char>> {
    match byte_array(item) {
        Some(bytes) => decode_text(bytes),
        None => None,
    }
}

/// The mount points among `items`, in order; an element that stands for
/// none is passed over.
pub open spec fn mount_points_among(items: Seq<ValueView>) -> Seq<Seq<char>>
    decreases items.len(),
{
    if items.len() == 0 {
        Seq::empty()
    } else {
        let before = mount_points_among(items.drop_last());
        match mount_point_of(items.last()) {
            Some(path) => before.push(path),
            None => before,
        }
    }
}

/// The mount points that the properties of a filesystem capability list.
pub open spec fn mount_points(fs_props: PropertiesView) -> Seq<Seq<char>> {
    if fs_props.contains_key("MountPoints"@) {
        match fs_props["MountPoints"@] {
            ValueView::Array(items) => mount_points_among(items),
            _ => Seq::empty(),
        }
    } else {
        Seq::empty()
    }
}

/// Reads the `MountPoints` property: an array of NUL-terminated byte
/// sequences. An element of another shape, or one whose bytes are not
/// UTF-8, is dropped; the others are kept.
pub fn get_mount_points(fs_props: &Properties) -> (paths: Vec<String>)
    ensures
        paths.deep_view() == mount_points(fs_props.deep_view()),
{
    let mut paths: Vec<String> = Vec::new();
    assert(paths.deep_view() =~= Seq::<Seq<char>>::empty());
    let items: &Vec<Value> = match fs_props.get("MountPoints") {
        Some(value) => match value.as_array() {
            Some(items) => items,
            None => {
                return paths;
            },
        },
        None => {
            return paths;
        },
    };
    let ghost all = items.deep_view();
    let mut i: usize = 0;
    assert(all.take(0) =~= Seq::<ValueView>::empty());
    while i < items.len()
        invariant
            i <= items@.len(),
            all == items.deep_view(),
            paths.deep_view() == mount_points_among(all.take(i as int)),
        decreases items@.len() - i,
    {
        let ghost before = paths.deep_view();
        proof {
            let upto = all.take(i as int + 1);
            assert(upto.drop_last() =~= all.take(i as int));
            assert(upto.last() == items@[i as int]@);
        }
        match items[i].as_bytes() {
            Some(bytes) => {
                match decode_bytes(bytes.as_slice()) {
                    Ok(path) => {
                        paths.push(path);
                        assert(paths.deep_view() =~= before.push(path@));
                    },
                    Err(_) => {
                        assert(paths.deep_view() =~= before);
                    },
                }
            },
            None => {
                assert(paths.deep_view() =~= before);
            },
        }
        i = i + 1;
    }
    assert(all.take(i as int) =~= all);
    paths
}

/// The text of property `key`. `Device` may come as a NUL-terminated byte
/// sequence, which is decoded; any property may come as a plain string.
pub open spec fn string_prop(props: PropertiesView, key: Seq<char>) -> Result<
    Seq<char>,
    DecodeError,
> {
    if !props.contains_key(key) {
        Err(DecodeError::Missing)
    } else if key == "Device"@ && byte_array(props[key]) is Some {
        match decode_text(byte_array(props[key])->0) {
            Some(text) => Ok(text),
            None => Err(DecodeError::InvalidUtf8),
        }
    } else {
        match props[key] {
            ValueView::Str(text) => Ok(text),
            _ => Err(DecodeError::NotAString),
        }
    }
}

/// Whether `got` is `want`, the text taken by its characters.
pub open spec fn same_text_result(got: Result<String, DecodeError>, want: Result<
    Seq<char>,
    DecodeError,
>) -> bool {
    match got {
        Ok(text) => want == Ok::<Seq<char>, DecodeError>(text@),
        Err(e) => want == Err::<Seq<char>, DecodeError>(e),
    }
}

/// Reads property `key` as a text.
pub fn get_string_prop(props: &Properties, key: &str) -> (text: Result<String, DecodeError>)
    ensures
        same_text_result(text, string_prop(props.deep_view(), key@)),
{
    let value: &Value = match props.get(key) {
        Some(value) => value,
        None => {
            return Err(DecodeError::Missing);
        },
    };
    if text_eq(key, "Device") {
        if let Some(bytes) = value.as_bytes() {
            return decode_bytes(bytes.as_slice());
        }
    }
    match value.as_str() {
        Some(text) => Ok(text.clone()),
        None => Err(DecodeError::NotAString),
    }
}

/// The object that property `key` refers to.
pub open spec fn object_path_prop(props: PropertiesView, key: Seq<char>) -> Result<
    Seq<char>,
    DecodeError,
> {
    if !props.contains_key(key) {
        Err(DecodeError::Missing)
    } else {
        match props[key] {
            ValueView::ObjectPath(path) => Ok(path),
            _ => Err(DecodeError::NotAnObjectPath),
        }
    }
}

/// Reads property `key` as a reference to another object.
pub fn get_object_path_prop(props: &Properties, key: &str) -> (path: Result<
    String,
    DecodeError,
>)
    ensures
        same_text_result(path, object_path_prop(props.deep_view(), key@)),
{
    match props.get(key) {
        None => Err(DecodeError::Missing),
        Some(value) => match value.as_object_path() {
            Some(path) => Ok(path.clone()),
            None => Err(DecodeError::NotAnObjectPath),
        },
    }
}

/// The model of a drive, where its properties give a non-empty one.
pub open spec fn drive_model(drive_props: PropertiesView) -> Option<Seq<char>> {
    if drive_props.contains_key("Model"@) {
        match drive_props["Model"@] {
            ValueView::Str(model) => if model.len() > 0 {
                Some(model)
            } else {
                None
            },
            _ => None,
        }
    } else {
        None
    }
}

/// Whether the properties of a drive say that it is removable.
pub open spec fn drive_removable(drive_props: PropertiesView) -> bool {
    drive_props.contains_key("Removable"@) && drive_props["Removable"@] == ValueView::Bool(true)
}

/// Model and removable flag of the drive at `drive_path`.
pub open spec fn drive_details(objects: ObjectsView, drive_path: Seq<char>) -> Result<
    (Option<Seq<char>>, bool),
    DecodeError,
> {
    if !objects.contains_key(drive_path) {
        Err(DecodeError::ObjectNotFound)
    } else if !objects[drive_path].contains_key(DRIVE_INTERFACE@) {
        Err(DecodeError::NoSuchInterface)
    } else {
        let drive_props = objects[drive_path][DRIVE_INTERFACE@];
        Ok((drive_model(drive_props), drive_removable(drive_props)))
    }
}

/// Looks up the drive that a block device belongs to and reads its model
/// (an empty one counts as none) and whether it is removable (false where
/// the property is absent or no boolean).
pub fn get_drive_info(objects: &ManagedObjects, drive_path: &str) -> (details:
    Result<(Option<String>, bool), DecodeError>)
    ensures
        match details {
            Ok((model, removable)) => drive_details(objects.deep_view(), drive_path@) == Ok::<
                (Option<Seq<char>>, bool),
                DecodeError,
            >((model.deep_view(), removable)),
            Err(e) => drive_details(objects.deep_view(), drive_path@) == Err::<
                (Option<Seq<char>>, bool),
                DecodeError,
            >(e),
        },
{
    let interfaces: &Interfaces = match objects.get(drive_path) {
        Some(interfaces) => interfaces,
        None => {
            return Err(DecodeError::ObjectNotFound);
        },
    };
    let drive_props: &Properties = match interfaces.get(DRIVE_INTERFACE) {
        Some(props) => props,
        None => {
            return Err(DecodeError::NoSuchInterface);
        },
    };
    let model: Option<String> = match drive_props.get("Model") {
        Some(value) => match value.as_str() {
            Some(text) => if text.as_str().is_empty() {
                None
            } else {
                Some(text.clone())
            },
            None => None,
        },
        None => None,
    };
    let removable: bool = match drive_props.get("Removable") {
        Some(value) => match value.as_bool() {
            Some(flag) => flag,
            None => false,
        },
        None => false,
    };
    Ok((model, removable))
}

/// Whether `fs_type` names a pseudo filesystem, one that stands for no
/// storage and is left out of the enumeration. The name must match whole.
pub open spec fn is_excluded(fs_type: Seq<char>) -> bool {
    ||| fs_type == "tmpfs"@
    ||| fs_type == "devtmpfs"@
    ||| fs_type == "squashfs"@
    ||| fs_type == "overlay"@
    ||| fs_type == "fuse.portal"@
    ||| fs_type == "fuse.gvfsd-fuse"@
    ||| fs_type == "autofs"@
    ||| fs_type == "proc"@
    ||| fs_type == "sysfs"@
    ||| fs_type == "devpts"@
    ||| fs_type == "cgroup"@
    ||| fs_type == "cgroup2"@
    ||| fs_type == "securityfs"@
    ||| fs_type == "pstore"@
    ||| fs_type == "efivarfs"@
    ||| fs_type == "bpf"@
    ||| fs_type == "fusectl"@
    ||| fs_type == "configfs"@
    ||| fs_type == "debugfs"@
    ||| fs_type == "tracefs"@
    ||| fs_type == "hugetlbfs"@
    ||| fs_type == "mqueue"@
    ||| fs_type == "ramfs"@
}

/// Whether `fs_type` names a pseudo filesystem.
pub fn is_excluded_fs_type(fs_type: &str) -> (excluded: bool)
    ensures
        excluded == is_excluded(fs_type@),
{
    text_eq(fs_type, "tmpfs") || text_eq(fs_type, "devtmpfs") || text_eq(fs_type, "squashfs")
        || text_eq(fs_type, "overlay") || text_eq(fs_type, "fuse.portal") || text_eq(
        fs_type,
        "fuse.gvfsd-fuse",
    ) || text_eq(fs_type, "autofs") || text_eq(fs_type, "proc") || text_eq(fs_type, "sysfs")
        || text_eq(fs_type, "devpts") || text_eq(fs_type, "cgroup") || text_eq(fs_type, "cgroup2")
        || text_eq(fs_type, "securityfs") || text_eq(fs_type, "pstore") || text_eq(
        fs_type,
        "efivarfs",
    ) || text_eq(fs_type, "bpf") || text_eq(fs_type, "fusectl") || text_eq(fs_type, "configfs")
        || text_eq(fs_type, "debugfs") || text_eq(fs_type, "tracefs") || text_eq(
        fs_type,
        "hugetlbfs",
    ) || text_eq(fs_type, "mqueue") || text_eq(fs_type, "ramfs")
}

/// The drive that a block device's `Drive` property leads to, with
/// `(None, false)` wherever the way there breaks off.
pub open spec fn drive_of_block(objects: ObjectsView, block_props: PropertiesView) -> (
    Option<Seq<char>>,
    bool,
) {
    match object_path_prop(block_props, "Drive"@) {
        Ok(drive_path) => match drive_details(objects, drive_path) {
            Ok(details) => details,
            Err(_) => (None, false),
        },
        Err(_) => (None, false),
    }
}

/// The drives that one object of the catalog stands for: one for each of
/// its mount points, all with the same device properties. An object stands
/// for none where it lacks the filesystem or the block capability, lists no
/// mount point that decodes, has no device path that decodes, or holds a
/// pseudo filesystem.
pub open spec fn object_drives(objects: ObjectsView, interfaces: InterfacesView) -> Seq<
    DriveRecord,
> {
    if !interfaces.contains_key(FILESYSTEM_INTERFACE@) || !interfaces.contains_key(
        BLOCK_INTERFACE@,
    ) {
        Seq::empty()
    } else {
        let mounts = mount_points(interfaces[FILESYSTEM_INTERFACE@]);
        let block = interfaces[BLOCK_INTERFACE@];
        let fs_type = match string_prop(block, "IdType"@) {
            Ok(text) => text,
            Err(_) => Seq::empty(),
        };
        if string_prop(block, "Device"@) is Err || is_excluded(fs_type) {
            Seq::empty()
        } else {
            Seq::new(
                mounts.len(),
                |i: int|
                    DriveRecord {
                        mount_point: mounts[i],
                        label: match string_prop(block, "IdLabel"@) {
                            Ok(text) => Some(text),
                            Err(_) => None,
                        },
                        device: string_prop(block, "Device"@)->Ok_0,
                        fs_type,
                        model: drive_of_block(objects, block).0,
                        removable: drive_of_block(objects, block).1,
                    },
            )
        }
    }
}

/// The drives of the first `n` of the `listed` objects of a catalog, in
/// their order.
pub open spec fn drives_of_first(objects: ObjectsView, listed: Seq<InterfacesView>, n: int) -> Seq<
    DriveRecord,
>
    decreases n,
{
    if n <= 0 {
        Seq::empty()
    } else {
        drives_of_first(objects, listed, n - 1) + object_drives(objects, listed[n - 1])
    }
}

/// Every drive of a catalog whose objects are `listed` in some order,
/// before mounts that share a device are collapsed.
pub open spec fn catalog_drives(objects: ObjectsView, listed: Seq<InterfacesView>) -> Seq<
    DriveRecord,
> {
    drives_of_first(objects, listed, listed.len() as int)
}

/// A primary mount: the root, or a path that begins with `/home`.
pub open spec fn is_primary(path: Seq<char>) -> bool {
    path == root_path() || home_prefix().is_prefix_of(path)
}

/// Whether some drive of `drives` is a primary mount of `device`.
pub open spec fn has_primary(drives: Seq<DriveRecord>, device: Seq<char>) -> bool {
    exists|j: int|
        0 <= j < drives.len() && is_primary(#[trigger] drives[j].mount_point) && drives[j].device
            == device
}

/// Whether `drive` stays when `drives` is collapsed: it is a primary mount,
/// or its device has no primary mount among `drives`.
pub open spec fn is_kept(drives: Seq<DriveRecord>, drive: DriveRecord) -> bool {
    is_primary(drive.mount_point) || !has_primary(drives, drive.device)
}

/// `drives` without the mounts that give way to a primary mount of their
/// device; what stays keeps its order.
pub open spec fn deduplicated(drives: Seq<DriveRecord>) -> Seq<DriveRecord> {
    drives.filter(|drive: DriveRecord| is_kept(drives, drive))
}

/// Whether `path` is a primary mount.
pub fn is_primary_mount(path: &str) -> (primary: bool)
    ensures
        primary == is_primary(path@),
{
    is_root(path) || starts_with_home(path)
}

fn contains_text(list: &Vec<String>, text: &str) -> (found: bool)
    ensures
        found == list.deep_view().contains(text@),
{
    let mut i: usize = 0;
    while i < list.len()
        invariant
            i <= list@.len(),
            forall|k: int| 0 <= k < i ==> list.deep_view()[k] != text@,
        decreases list@.len() - i,
    {
        if text_eq(list[i].as_str(), text) {
            assert(list.deep_view()[i as int] == text@);
            return true;
        }
        i = i + 1;
    }
    false
}

/// A device has a primary mount among `drives` and one more drive where
/// it has one among `drives` or the added drive is one.
proof fn lemma_has_primary_push(drives: Seq<DriveRecord>, drive: DriveRecord, device: Seq<char>)
    ensures
        has_primary(drives.push(drive), device) <==> has_primary(drives, device) || (is_primary(
            drive.mount_point,
        ) && drive.device == device),
{
    let longer = drives.push(drive);
    if has_primary(longer, device) {
        let j = choose|j: int|
            0 <= j < longer.len() && is_primary(#[trigger] longer[j].mount_point)
                && longer[j].device == device;
        if j < drives.len() {
            assert(drives[j] == longer[j]);
        }
    }
    if has_primary(drives, device) {
        let j = choose|j: int|
            0 <= j < drives.len() && is_primary(#[trigger] drives[j].mount_point)
                && drives[j].device == device;
        assert(longer[j] == drives[j]);
    }
    if is_primary(drive.mount_point) && drive.device == device {
        assert(longer[drives.len() as int] == drive);
    }
}

/// A list with one more text holds what the list held, and that text.
proof fn lemma_contains_push(list: Seq<Seq<char>>, text: Seq<char>, wanted: Seq<char>)
    ensures
        list.push(text).contains(wanted) <==> list.contains(wanted) || text == wanted,
{
    let longer = list.push(text);
    if longer.contains(wanted) {
        let k = choose|k: int| 0 <= k < longer.len() && longer[k] == wanted;
        if k < list.len() {
            assert(list[k] == wanted);
        }
    }
    if list.contains(wanted) {
        let k = choose|k: int| 0 <= k < list.len() && list[k] == wanted;
        assert(longer[k] == wanted);
    }
    if text == wanted {
        assert(longer[list.len() as int] == wanted);
    }
}

/// The devices that have a primary mount among `drives`.
fn devices_with_primary(drives: &Vec<DriveInfo>) -> (devices: Vec<String>)
    ensures
        forall|device: Seq<char>|
            devices.deep_view().contains(device) <==> has_primary(drives.deep_view(), device),
{
    let mut devices: Vec<String> = Vec::new();
    let mut i: usize = 0;
    assert(drives.deep_view().take(0) =~= Seq::<DriveRecord>::empty());
    while i < drives.len()
        invariant
            i <= drives@.len(),
            forall|device: Seq<char>|
                devices.deep_view().contains(device) <==> has_primary(
                    drives.deep_view().take(i as int),
                    device,
                ),
        decreases drives@.len() - i,
    {
        let ghost before = devices.deep_view();
        let ghost seen = drives.deep_view().take(i as int);
        let ghost drive = drives@[i as int]@;
        let primary: bool = is_primary_mount(drives[i].mount_point.as_str());
        if primary {
            devices.push(drives[i].device.clone());
            assert(devices.deep_view() =~= before.push(drive.device));
        }
        proof {
            assert(drives.deep_view().take(i as int + 1) =~= seen.push(drive));
            assert forall|device: Seq<char>|
                devices.deep_view().contains(device) <==> has_primary(
                    seen.push(drive),
                    device,
                ) by {
                lemma_has_primary_push(seen, drive, device);
                lemma_contains_push(before, drive.device, device);
            }
        }
        i = i + 1;
    }
    assert(drives.deep_view().take(i as int) =~= drives.deep_view());
    devices
}

/// Filters out subvolume mounts, keeping only primary mount points.
///
/// A primary mount (`/`, or a path under `/home`) always stays. Any other
/// mount stays only where its device has no primary mount in the list.
/// What stays keeps its order.
pub fn deduplicate_by_device(drives: &mut Vec<DriveInfo>)
    ensures
        final(drives).deep_view() == deduplicated(old(drives).deep_view()),
{
    let devices: Vec<String> = devices_with_primary(drives);
    let mut all: Vec<DriveInfo> = Vec::new();
    core::mem::swap(drives, &mut all);
    let ghost listed = all@;
    let ghost whole = all.deep_view();
    let ghost keep = |drive: DriveRecord| is_kept(whole, drive);
    proof {
        reveal(Seq::filter);
        assert(whole.take(0) =~= Seq::<DriveRecord>::empty());
        assert(drives.deep_view() =~= Seq::<DriveRecord>::empty());
    }
    for drive in iter: all
        invariant
            iter.seq() == listed,
            whole.len() == listed.len(),
            forall|k: int| 0 <= k < listed.len() ==> whole[k] == (#[trigger] listed[k])@,
            keep == |drive: DriveRecord| is_kept(whole, drive),
            drives.deep_view() == whole.take(iter.index() as int).filter(keep),
            forall|device: Seq<char>|
                devices.deep_view().contains(device) <==> has_primary(whole, device),
    {
        let ghost before = drives.deep_view();
        let ghost at = iter.index() as int;
        let primary: bool = is_primary_mount(drive.mount_point.as_str());
        let stays: bool = primary || !contains_text(&devices, drive.device.as_str());
        proof {
            reveal(Seq::filter);
            let upto = whole.take(at + 1);
            assert(upto.drop_last() =~= whole.take(at));
            assert(upto.last() == drive@);
            assert(stays == keep(upto.last()));
        }
        if stays {
            drives.push(drive);
            assert(drives.deep_view() =~= before.push(drive@));
        }
    }
    assert(whole.take(whole.len() as int) =~= whole);
}

/// The drives that one object of the catalog stands for.
fn drives_of_object(objects: &ManagedObjects, interfaces: &Interfaces) -> (drives:
    Vec<DriveInfo>)
    ensures
        drives.deep_view() == object_drives(objects.deep_view(), interfaces.deep_view()),
{
    let mut drives: Vec<DriveInfo> = Vec::new();
    assert(drives.deep_view() =~= Seq::<DriveRecord>::empty());
    let fs_props: &Properties = match interfaces.get(FILESYSTEM_INTERFACE) {
        Some(props) => props,
        None => {
            return drives;
        },
    };
    let mount_points: Vec<String> = get_mount_points(fs_props);
    if mount_points.len() == 0 {
        assert(object_drives(objects.deep_view(), interfaces.deep_view()) =~= Seq::<DriveRecord>::empty());
        return drives;
    }
    let block_props: &Properties = match interfaces.get(BLOCK_INTERFACE) {
        Some(props) => props,
        None => {
            return drives;
        },
    };
    let device: String = match get_string_prop(block_props, "Device") {
        Ok(device) => device,
        Err(_) => {
            return drives;
        },
    };
    let label: Option<String> = match get_string_prop(block_props, "IdLabel") {
        Ok(label) => Some(label),
        Err(_) => None,
    };
    let fs_type: String = match get_string_prop(block_props, "IdType") {
        Ok(fs_type) => fs_type,
        Err(_) => String::new(),
    };
    if is_excluded_fs_type(fs_type.as_str()) {
        return drives;
    }
    let (model, removable): (Option<String>, bool) = match get_object_path_prop(
        block_props,
        "Drive",
    ) {
        Ok(drive_path) => match get_drive_info(objects, drive_path.as_str()) {
            Ok(details) => details,
            Err(_) => (None, false),
        },
        Err(_) => (None, false),
    };
    let ghost wanted = object_drives(objects.deep_view(), interfaces.deep_view());
    let mut i: usize = 0;
    while i < mount_points.len()
        invariant
            i <= mount_points@.len(),
            wanted.len() == mount_points@.len(),
            drives@.len() == i,
            forall|k: int| 0 <= k < i ==> drives@[k]@ == wanted[k],
            forall|k: int|
                0 <= k < wanted.len() ==> #[trigger] wanted[k] == (DriveRecord {
                    mount_point: mount_points@[k]@,
                    label: label.deep_view(),
                    device: device@,
                    fs_type: fs_type@,
                    model: model.deep_view(),
                    removable,
                }),
        decreases mount_points@.len() - i,
    {
        drives.push(
            DriveInfo {
                mount_point: mount_points[i].clone(),
                label: clone_opt(&label),
                device: device.clone(),
                fs_type: fs_type.clone(),
                model: clone_opt(&model),
                removable,
            },
        );
        i = i + 1;
    }
    assert(drives.deep_view() =~= wanted);
    drives
}

/// Enumerates the mounted filesystems of a catalog of managed objects.
///
/// Every object with a filesystem and a block capability yields one drive
/// for each of its mount points, pseudo filesystems left aside; an object
/// whose properties do not decode is passed over. Of mounts that share a
/// device only the primary ones stay, if there are any.
pub fn enumerate_drives(objects: &ManagedObjects) -> (drives: Vec<DriveInfo>)
    ensures
        drives.deep_view() == deduplicated(
            catalog_drives(objects.deep_view(), objects.deep_values()),
        ),
{
    let mut drives: Vec<DriveInfo> = Vec::new();
    let count: usize = objects.len();
    let mut i: usize = 0;
    assert(drives.deep_view() =~= Seq::<DriveRecord>::empty());
    while i < count
        invariant
            i <= count,
            count == objects.values().len(),
            drives.deep_view() == drives_of_first(
                objects.deep_view(),
                objects.deep_values(),
                i as int,
            ),
        decreases count - i,
    {
        let ghost before = drives.deep_view();
        let mut found: Vec<DriveInfo> = drives_of_object(objects, objects.value_at(i));
        let ghost added = found.deep_view();
        drives.append(&mut found);
        assert(drives.deep_view() =~= before + added);
        i = i + 1;
    }
    deduplicate_by_device(&mut drives);
    drives
}

/// What collapsing keeps and what it drops: a drive of the list stays
/// exactly where it is a primary mount or its device has none. So a device
/// without a primary mount keeps all its mounts, and one with a primary
/// mount loses all the others.
pub proof fn lemma_deduplicated_members(drives: Seq<DriveRecord>, drive: DriveRecord)
    ensures
        deduplicated(drives).contains(drive) <==> drives.contains(drive) && is_kept(drives, drive),
{
    let keep = |drive: DriveRecord| is_kept(drives, drive);
    if deduplicated(drives).contains(drive) {
        lemma_filter_subset(drives, keep, drive);
        let i = choose|i: int| 0 <= i < deduplicated(drives).len() && deduplicated(drives)[i] == drive;
        drives.lemma_filter_pred(keep, i);
    }
    if drives.contains(drive) && is_kept(drives, drive) {
        let i = choose|i: int| 0 <= i < drives.len() && drives[i] == drive;
        drives.lemma_filter_contains(keep, i);
    }
}

/// Collapsing twice is collapsing once.
pub proof fn lemma_deduplicated_idempotent(drives: Seq<DriveRecord>)
    ensures
        deduplicated(deduplicated(drives)) == deduplicated(drives),
{
    let once = deduplicated(drives);
    let keep = |drive: DriveRecord| is_kept(drives, drive);
    let keep_again = |drive: DriveRecord| is_kept(once, drive);
    assert forall|i: int| 0 <= i < once.len() implies keep_again(#[trigger] once[i]) by {
        drives.lemma_filter_pred(keep, i);
        if has_primary(once, once[i].device) {
            let j = choose|j: int|
                0 <= j < once.len() && is_primary(#[trigger] once[j].mount_point) && once[j].device
                    == once[i].device;
            assert(once.contains(once[j]));
            lemma_filter_subset(drives, keep, once[j]);
            let k = choose|k: int| 0 <= k < drives.len() && drives[k] == once[j];
            assert(is_primary(drives[k].mount_point));
            assert(has_primary(drives, once[i].device));
        }
    }
    lemma_filter_all(once, keep_again);
}

/// What a filter lets through was in the sequence.
proof fn lemma_filter_subset<A>(s: Seq<A>, pred: spec_fn(A) -> bool, x: A)
    requires
        s.filter(pred).contains(x),
    ensures
        s.contains(x),
    decreases s.len(),
{
    reveal(Seq::filter);
    if s.len() > 0 {
        let rest = s.drop_last();
        if pred(s.last()) && x == s.last() {
            assert(s[s.len() - 1] == x);
        } else {
            if pred(s.last()) {
                let out = s.filter(pred);
                let k = choose|k: int| 0 <= k < out.len() && out[k] == x;
                assert(rest.filter(pred)[k] == x);
            }
            lemma_filter_subset(rest, pred, x);
            let k = choose|k: int| 0 <= k < rest.len() && rest[k] == x;
            assert(s[k] == x);
        }
    }
}

/// A filter that every element passes changes nothing.
proof fn lemma_filter_all<A>(s: Seq<A>, pred: spec_fn(A) -> bool)
    requires
        forall|i: int| 0 <= i < s.len() ==> pred(#[trigger] s[i]),
    ensures
        s.filter(pred) == s,
    decreases s.len(),
{
    reveal(Seq::filter);
    if s.len() > 0 {
        let rest = s.drop_last();
        assert forall|i: int| 0 <= i < rest.len() implies pred(#[trigger] rest[i]) by {
            assert(rest[i] == s[i]);
        }
        lemma_filter_all(rest, pred);
        assert(pred(s[s.len() - 1]));
        assert(rest.push(s.last()) =~= s);
    }
}

/// No drive that is enumerated holds a pseudo filesystem: `tmpfs` and the
/// other excluded types never come out, whatever else the catalog says.
pub proof fn lemma_enumerated_not_excluded(objects: ObjectsView, listed: Seq<InterfacesView>)
    ensures
        is_excluded("tmpfs"@),
        forall|i: int|
            0 <= i < deduplicated(catalog_drives(objects, listed)).len() ==> !is_excluded(
                #[trigger] deduplicated(catalog_drives(objects, listed))[i].fs_type,
            ),
{
    let all = catalog_drives(objects, listed);
    let keep = |drive: DriveRecord| is_kept(all, drive);
    lemma_first_not_excluded(objects, listed, listed.len() as int);
    assert forall|i: int| 0 <= i < deduplicated(all).len() implies !is_excluded(
        #[trigger] deduplicated(all)[i].fs_type,
    ) by {
        let drive = deduplicated(all)[i];
        assert(all.filter(keep).contains(drive));
        lemma_filter_subset(all, keep, drive);
        let k = choose|k: int| 0 <= k < all.len() && all[k] == drive;
        assert(!is_excluded(all[k].fs_type));
    }
}

/// No drive of the first `n` objects holds a pseudo filesystem.
proof fn lemma_first_not_excluded(objects: ObjectsView, listed: Seq<InterfacesView>, n: int)
    ensures
        forall|i: int|
            0 <= i < drives_of_first(objects, listed, n).len() ==> !is_excluded(
                #[trigger] drives_of_first(objects, listed, n)[i].fs_type,
            ),
    decreases n,
{
    if n > 0 {
        lemma_first_not_excluded(objects, listed, n - 1);
        let before = drives_of_first(objects, listed, n - 1);
        let added = object_drives(objects, listed[n - 1]);
        assert forall|i: int| 0 <= i < (before + added).len() implies !is_excluded(
            #[trigger] (before + added)[i].fs_type,
        ) by {
            if i < before.len() {
                assert((before + added)[i] == before[i]);
            } else {
                assert((before + added)[i] == added[i - before.len()]);
            }
        }
    }
}

/// The name under which a drive with these properties is shown: its label
/// where it has a non-empty one; else `/` for the root, `~` for a mount
/// under `/home`, and the last segment of any other mount path.
pub open spec fn display_name_of(drive: DriveRecord) -> Seq<char> {
    if drive.label is Some && drive.label->0.len() > 0 {
        drive.label->0
    } else if drive.mount_point == root_path() {
        root_path()
    } else if home_prefix().is_prefix_of(drive.mount_point) {
        seq!['~']
    } else {
        last_segment(drive.mount_point)
    }
}

impl DriveInfo {
    /// Returns a display name for this drive.
    ///
    /// Uses the label if available, otherwise derives a name from the mount point.
    pub fn display_name(&self) -> (name: String)
        ensures
            name@ == display_name_of(self@),
    {
        if let Some(label) = &self.label {
            if !label.as_str().is_empty() {
                return label.clone();
            }
        }
        let path: &str = self.mount_point.as_str();
        if is_root(path) {
            proof {
                reveal_strlit("/");
                assert("/"@ =~= root_path());
            }
            String::from_str("/")
        } else if starts_with_home(path) {
            proof {
                reveal_strlit("~");
                assert("~"@ =~= seq!['~']);
            }
            String::from_str("~")
        } else {
            final_segment(path)
        }
    }
}

} // verus!

//! Guest configuration keys of the PVE property editors: unused volumes, mount points,
//! network devices, disk buses, and the decisions of the mount point and disk editors.
use vstd::prelude::*;
use crate::json::{
    clone_entries, entries_of, get_member, jentries, jview, keys_of, lemma_jentries, member, set_entry, set_key, Json,
    JsonValue,
};
use crate::text::{
    chars_eq, decimal_spec, parse_unsigned, parse_unsigned_spec, push_decimal, push_str,
    slice_to_vec, starts_with, str_chars, string_from_chars, first_index_of, find_char,
};

verus! {

/// The kind of a PVE guest.
#[derive(Clone, Copy, PartialEq, Eq, Structural, Debug)]
pub enum PveGuestType {
    /// A QEMU virtual machine.
    Qemu,
    /// An LXC container.
    Lxc,
}

/// Mount points of a container: `mp0` to `mp255`.
pub const LXC_MAX_MOUNT_POINTS: u64 = 256;

/// Network devices of a container: `net0` to `net31`.
pub const LXC_MAX_NETWORKS: u64 = 32;

/// Network devices of a virtual machine: `net0` to `net15`.
pub const QEMU_MAX_NETWORKS: u64 = 16;

/// SCSI disks of a virtual machine: `scsi0` to `scsi30`.
pub const QEMU_MAX_SCSI: u64 = 31;

/// Whether `s` starts with `prefix`.
pub open spec fn has_prefix(s: Seq<char>, prefix: Seq<char>) -> bool {
    prefix.len() <= s.len() && s.take(prefix.len() as int) == prefix
}

/// The number after `prefix` in a key (as `str::parse` reads it, up to `max`).
pub open spec fn key_index(key: Seq<char>, prefix: Seq<char>, max: int) -> Option<int> {
    if has_prefix(key, prefix) {
        parse_unsigned_spec(key.skip(prefix.len() as int), max)
    } else {
        None
    }
}

/// The number after `prefix` in `key`, if `key` is `prefix` followed by a number that
/// fits `max`.
fn parse_key_index(key: &str, prefix: &str, max: u64) -> (r: Option<u64>)
    ensures
        match r {
            Some(v) => key_index(key@, prefix@, max as int) == Some(v as int),
            None => key_index(key@, prefix@, max as int) is None,
        },
{
    let k = str_chars(key);
    let p = str_chars(prefix);
    if !starts_with(k.as_slice(), p.as_slice()) {
        return None;
    }
    let rest = slice_to_vec(k.as_slice(), p.len(), k.len());
    assert(rest@ == key@.skip(prefix@.len() as int));
    parse_unsigned(rest.as_slice(), max)
}

/// The number of an `unusedN` key.
pub open spec fn unused_key_id(key: Seq<char>) -> Option<int> {
    key_index(key, "unused"@, usize::MAX as int)
}

/// The number of an `unusedN` key (a volume not attached to the guest).
pub fn parse_unused_key(key: &str) -> (r: Option<usize>)
    ensures
        match r {
            Some(id) => unused_key_id(key@) == Some(id as int),
            None => unused_key_id(key@) is None,
        },
{
    match parse_key_index(key, "unused", usize::MAX as u64) {
        Some(v) => Some(v as usize),
        None => None,
    }
}

/// The number of a `netN` key.
pub open spec fn net_key_id(key: Seq<char>) -> Option<int> {
    key_index(key, "net"@, usize::MAX as int)
}

/// The number of a `netN` key (a network device).
pub fn net_property_id(name: &str) -> (r: Option<usize>)
    ensures
        match r {
            Some(id) => net_key_id(name@) == Some(id as int),
            None => net_key_id(name@) is None,
        },
{
    match parse_key_index(name, "net", usize::MAX as u64) {
        Some(v) => Some(v as usize),
        None => None,
    }
}

/// Whether a key names a mount point: `mp` and a number that fits `u16`.
pub open spec fn is_mount_point_key(key: Seq<char>) -> bool {
    key_index(key, "mp"@, u16::MAX as int) is Some
}

/// The keys that satisfy `p`, in order.
pub open spec fn select_keys(keys: Seq<Seq<char>>, p: spec_fn(Seq<char>) -> bool) -> Seq<
    Seq<char>,
>
    decreases keys.len(),
{
    if keys.len() == 0 {
        Seq::empty()
    } else {
        let init = select_keys(keys.drop_last(), p);
        if p(keys.last()) {
            init.push(keys.last())
        } else {
            init
        }
    }
}

/// The views of a list of strings.
pub open spec fn string_views(v: Seq<String>) -> Seq<Seq<char>> {
    v.map_values(|s: String| s@)
}

/// The keys of an object that are `prefix` followed by a number up to `max`, in entry
/// order (none when the value is not an object).
fn keys_with_index(record: &JsonValue, prefix: &str, max: u64) -> (r: Vec<String>)
    ensures
        string_views(r@) == select_keys(
            keys_of(entries_of(jview(*record))),
            |k: Seq<char>| key_index(k, prefix@, max as int) is Some,
        ),
{
    let mut out: Vec<String> = Vec::new();
    match record {
        JsonValue::Object(entries) => {
            proof {
                lemma_jentries(entries@);
            }
            let ghost keys = keys_of(jentries(entries@));
            let ghost p = |k: Seq<char>| key_index(k, prefix@, max as int) is Some;
            let mut i: usize = 0;
            while i < entries.len()
                invariant
                    i <= entries.len(),
                    jentries(entries@).len() == entries.len(),
                    forall|k: int|
                        0 <= k < entries.len() ==> #[trigger] jentries(entries@)[k] == (
                            entries@[k].0@,
                            jview(entries@[k].1),
                        ),
                    keys == keys_of(jentries(entries@)),
                    p == (|k: Seq<char>| key_index(k, prefix@, max as int) is Some),
                    string_views(out@) == select_keys(keys.take(i as int), p),
                decreases entries.len() - i,
            {
                proof {
                    assert(keys.take(i + 1).drop_last() == keys.take(i as int));
                    assert(keys.take(i + 1).last() == entries@[i as int].0@);
                }
                if parse_key_index(entries[i].0.as_str(), prefix, max).is_some() {
                    let ghost before = out@;
                    out.push(entries[i].0.clone());
                    assert(string_views(out@) =~= string_views(before).push(entries@[i as int].0@));
                }
                i = i + 1;
            }
            assert(keys.take(entries.len() as int) == keys);
        },
        _ => {},
    }
    out
}

/// The `unusedN` keys of a guest configuration.
pub fn extract_unused_keys(record: &JsonValue) -> (r: Vec<String>)
    ensures
        string_views(r@) == select_keys(
            keys_of(entries_of(jview(*record))),
            |k: Seq<char>| unused_key_id(k) is Some,
        ),
{
    let r = keys_with_index(record, "unused", usize::MAX as u64);
    assert((|k: Seq<char>| key_index(k, "unused"@, (usize::MAX as u64) as int) is Some) =~= (
    |k: Seq<char>| unused_key_id(k) is Some));
    r
}

/// The mount point keys (`mpN`) of a container configuration.
pub fn extract_used_mount_points(record: &JsonValue) -> (r: Vec<String>)
    ensures
        string_views(r@) == select_keys(
            keys_of(entries_of(jview(*record))),
            |k: Seq<char>| is_mount_point_key(k),
        ),
{
    let r = keys_with_index(record, "mp", u16::MAX as u64);
    assert((|k: Seq<char>| key_index(k, "mp"@, (u16::MAX as u64) as int) is Some) =~= (
    |k: Seq<char>| is_mount_point_key(k)));
    r
}

// ---------------------------------------------------------------------------
// Free device names
// ---------------------------------------------------------------------------

/// `prefix` followed by the decimal number `n`.
pub open spec fn indexed_name(prefix: Seq<char>, n: nat) -> Seq<char> {
    prefix + decimal_spec(n)
}

/// The first number from `n` on, below `max`, whose name is not in `used`.
pub open spec fn first_free_from(used: Seq<Seq<char>>, prefix: Seq<char>, n: nat, max: nat) -> Option<
    nat,
>
    decreases max - n,
{
    if n >= max {
        None
    } else if !used.contains(indexed_name(prefix, n)) {
        Some(n)
    } else {
        first_free_from(used, prefix, n + 1, max)
    }
}

/// What `first_free_from` yields: the least free number, or none when all are used.
pub proof fn lemma_first_free(used: Seq<Seq<char>>, prefix: Seq<char>, n: nat, max: nat)
    ensures
        match first_free_from(used, prefix, n, max) {
            Some(m) => n <= m < max && !used.contains(indexed_name(prefix, m)) && forall|j: nat|
                n <= j < m ==> used.contains(#[trigger] indexed_name(prefix, j)),
            None => forall|j: nat| n <= j < max ==> used.contains(#[trigger] indexed_name(prefix, j)),
        },
    decreases max - n,
{
    if n < max && used.contains(indexed_name(prefix, n)) {
        lemma_first_free(used, prefix, n + 1, max);
    }
}

/// Whether `name` is one of `used`.
fn contains_name(used: &[String], name: &[char]) -> (r: bool)
    ensures
        r == string_views(used@).contains(name@),
{
    let mut i: usize = 0;
    while i < used.len()
        invariant
            i <= used.len(),
            forall|j: int| 0 <= j < i ==> used@[j]@ != name@,
        decreases used.len() - i,
    {
        let c = str_chars(used[i].as_str());
        if chars_eq(c.as_slice(), name) {
            assert(string_views(used@)[i as int] == name@);
            return true;
        }
        i = i + 1;
    }
    proof {
        if string_views(used@).contains(name@) {
            let j = choose|j: int|
                0 <= j < string_views(used@).len() && string_views(used@)[j] == name@;
            assert(used@[j]@ == name@);
        }
    }
    false
}

/// The first number below `max` whose name (`prefix` and the number) is not in `used`.
pub fn first_unused_index(used: &[String], prefix: &str, max: u64) -> (r: Option<u64>)
    ensures
        match r {
            Some(n) => first_free_from(string_views(used@), prefix@, 0, max as nat) == Some(
                n as nat,
            ),
            None => first_free_from(string_views(used@), prefix@, 0, max as nat) is None,
        },
{
    let ghost uv = string_views(used@);
    let mut n: u64 = 0;
    while n < max
        invariant
            n <= max,
            uv == string_views(used@),
            first_free_from(uv, prefix@, 0, max as nat) == first_free_from(
                uv,
                prefix@,
                n as nat,
                max as nat,
            ),
        decreases max - n,
    {
        let mut name: Vec<char> = Vec::new();
        push_str(&mut name, prefix);
        push_decimal(&mut name, n);
        assert(name@ == indexed_name(prefix@, n as nat));
        if !contains_name(used, name.as_slice()) {
            return Some(n);
        }
        n = n + 1;
    }
    None
}

/// The first free mount point number.
pub fn first_unused_mount_point(used_prop_names: &[String]) -> (r: Option<usize>)
    ensures
        match r {
            Some(n) => first_free_from(
                string_views(used_prop_names@),
                "mp"@,
                0,
                LXC_MAX_MOUNT_POINTS as nat,
            ) == Some(n as nat),
            None => first_free_from(
                string_views(used_prop_names@),
                "mp"@,
                0,
                LXC_MAX_MOUNT_POINTS as nat,
            ) is None,
        },
{
    match first_unused_index(used_prop_names, "mp", LXC_MAX_MOUNT_POINTS) {
        Some(n) => {
            proof {
                lemma_first_free(string_views(used_prop_names@), "mp"@, 0, LXC_MAX_MOUNT_POINTS as nat);
            }
            Some(n as usize)
        },
        None => None,
    }
}

/// The name of the first free SCSI disk.
pub fn first_unused_scsi_device(used_devices: &[String]) -> (r: Option<String>)
    ensures
        match first_free_from(string_views(used_devices@), "scsi"@, 0, QEMU_MAX_SCSI as nat) {
            Some(n) => r is Some && r->0@ == indexed_name("scsi"@, n),
            None => r is None,
        },
{
    match first_unused_index(used_devices, "scsi", QEMU_MAX_SCSI) {
        Some(n) => {
            let mut name: Vec<char> = Vec::new();
            push_str(&mut name, "scsi");
            push_decimal(&mut name, n);
            Some(string_from_chars(name.as_slice()))
        },
        None => None,
    }
}

/// Why no network device can be added.
#[derive(Clone, Copy, PartialEq, Eq, Structural, Debug)]
pub enum NetworkError {
    /// All network devices are in use.
    AllInUse,
}

/// The maximal number of network devices of a guest type.
pub open spec fn max_networks(guest: PveGuestType) -> u64 {
    match guest {
        PveGuestType::Qemu => QEMU_MAX_NETWORKS,
        PveGuestType::Lxc => LXC_MAX_NETWORKS,
    }
}

/// The name of the first network device the configuration does not have (`net0` when the
/// configuration is not an object).
pub fn find_free_network(record: &JsonValue, guest: PveGuestType) -> (r: Result<
    String,
    NetworkError,
>)
    ensures
        match jview(*record) {
            Json::Object(e) => match first_free_from(keys_of(e), "net"@, 0, max_networks(guest) as nat) {
                Some(n) => r is Ok && r->Ok_0@ == indexed_name("net"@, n),
                None => r == Err::<String, NetworkError>(NetworkError::AllInUse),
            },
            _ => r is Ok && r->Ok_0@ == "net0"@,
        },
{
    let max = match guest {
        PveGuestType::Qemu => QEMU_MAX_NETWORKS,
        PveGuestType::Lxc => LXC_MAX_NETWORKS,
    };
    match record {
        JsonValue::Object(entries) => {
            proof {
                lemma_jentries(entries@);
            }
            let mut keys: Vec<String> = Vec::new();
            let mut i: usize = 0;
            while i < entries.len()
                invariant
                    i <= entries.len(),
                    jentries(entries@).len() == entries.len(),
                    forall|k: int|
                        0 <= k < entries.len() ==> #[trigger] jentries(entries@)[k] == (
                            entries@[k].0@,
                            jview(entries@[k].1),
                        ),
                    string_views(keys@) == keys_of(jentries(entries@)).take(i as int),
                decreases entries.len() - i,
            {
                let ghost before = keys@;
                let k = entries[i].0.clone();
                keys.push(k);
                proof {
                    assert(jentries(entries@)[i as int].0 == entries@[i as int].0@);
                    assert(keys_of(jentries(entries@)).take(i + 1) =~= keys_of(
                        jentries(entries@),
                    ).take(i as int).push(entries@[i as int].0@));
                    assert(string_views(keys@) =~= string_views(before).push(k@));
                }
                i = i + 1;
            }
            assert(keys_of(jentries(entries@)).take(entries.len() as int) =~= keys_of(
                jentries(entries@),
            ));
            match first_unused_index(keys.as_slice(), "net", max) {
                Some(n) => {
                    let mut name: Vec<char> = Vec::new();
                    push_str(&mut name, "net");
                    push_decimal(&mut name, n);
                    Ok(string_from_chars(name.as_slice()))
                },
                None => Err(NetworkError::AllInUse),
            }
        },
        _ => Ok("net0".to_string()),
    }
}

// ---------------------------------------------------------------------------
// Volumes and mount points
// ---------------------------------------------------------------------------

/// Letters.
pub open spec fn is_ascii_alpha(c: char) -> bool {
    ('A' <= c && c <= 'Z') || ('a' <= c && c <= 'z')
}

/// Letters and digits.
pub open spec fn is_ascii_alnum(c: char) -> bool {
    is_ascii_alpha(c) || ('0' <= c && c <= '9')
}

/// A storage identifier: a letter, then letters, digits, `-`, `_` and `.`, ending in a
/// letter or digit.
pub open spec fn is_storage_id(s: Seq<char>) -> bool {
    &&& s.len() >= 2
    &&& is_ascii_alpha(s[0])
    &&& is_ascii_alnum(s.last())
    &&& forall|i: int|
        0 <= i < s.len() ==> is_ascii_alnum(#[trigger] s[i]) || s[i] == '-' || s[i] == '_' || s[i]
            == '.'
}

/// The storage of a volume id (`storage:volume`): the part before the first `:`, when it
/// is a storage identifier.
pub open spec fn volume_storage_spec(volume: Seq<char>) -> Option<Seq<char>> {
    match first_index_of(volume, ':') {
        Some(i) => if is_storage_id(volume.take(i)) {
            Some(volume.take(i))
        } else {
            None
        },
        None => None,
    }
}

fn is_alpha(c: char) -> (r: bool)
    ensures
        r == is_ascii_alpha(c),
{
    ('A' <= c && c <= 'Z') || ('a' <= c && c <= 'z')
}

fn is_alnum(c: char) -> (r: bool)
    ensures
        r == is_ascii_alnum(c),
{
    is_alpha(c) || ('0' <= c && c <= '9')
}

/// The storage a volume id names (`local-lvm` in `local-lvm:vm-100-disk-0`).
pub fn volume_storage(volume: &str) -> (r: Option<String>)
    ensures
        match volume_storage_spec(volume@) {
            Some(s) => r is Some && r->0@ == s,
            None => r is None,
        },
{
    let v = str_chars(volume);
    let colon = match find_char(v.as_slice(), ':') {
        Some(i) => i,
        None => return None,
    };
    let id = slice_to_vec(v.as_slice(), 0, colon);
    assert(id@ == volume@.take(colon as int));
    if id.len() < 2 || !is_alpha(id[0]) || !is_alnum(id[id.len() - 1]) {
        return None;
    }
    let mut i: usize = 0;
    while i < id.len()
        invariant
            i <= id.len(),
            id@ == volume@.take(colon as int),
            first_index_of(volume@, ':') == Some(colon as int),
            forall|k: int|
                0 <= k < i ==> is_ascii_alnum(#[trigger] id@[k]) || id@[k] == '-' || id@[k] == '_'
                    || id@[k] == '.',
        decreases id.len() - i,
    {
        let c = id[i];
        if !(is_alnum(c) || c == '-' || c == '_' || c == '.') {
            assert(!is_storage_id(id@));
            return None;
        }
        i = i + 1;
    }
    Some(string_from_chars(id.as_slice()))
}

/// Whether a mount point is a bind mount: its volume is neither a device (`/dev/...`) nor a
/// volume on a storage. An unused volume, or a mount point without volume, is none.
pub fn is_bind_mount(unused_disk: bool, volume: Option<&str>) -> (r: bool)
    ensures
        r == (!unused_disk && match volume {
            Some(v) => !has_prefix(v@, "/dev/"@) && volume_storage_spec(v@) is None,
            None => false,
        }),
{
    if unused_disk {
        return false;
    }
    match volume {
        Some(v) => {
            let c = str_chars(v);
            let dev = str_chars("/dev/");
            if starts_with(c.as_slice(), dev.as_slice()) {
                false
            } else if volume_storage(v).is_some() {
                false
            } else {
                true
            }
        },
        None => false,
    }
}

/// Quotas can be enabled unless the storage is ZFS, the container is unprivileged, or the
/// mount point is a bind mount.
pub fn enable_quota(storage_type: &str, unprivileged: bool, bind_mount: bool) -> (r: bool)
    ensures
        r == !(storage_type@ == "zfs"@ || storage_type@ == "zfspool"@ || unprivileged
            || bind_mount),
{
    let t = str_chars(storage_type);
    let zfs = str_chars("zfs");
    let zfspool = str_chars("zfspool");
    !(chars_eq(t.as_slice(), zfs.as_slice()) || chars_eq(t.as_slice(), zfspool.as_slice())
        || unprivileged || bind_mount)
}

/// The property a mount point is written to: its own name when editing an existing mount
/// point, otherwise `mp` and the chosen number.
pub fn mount_point_prop_name(name: Option<&str>, unused_disk: bool, id_text: &str) -> (r: String)
    ensures
        r@ == match name {
            Some(n) => if unused_disk {
                "mp"@ + id_text@
            } else {
                n@
            },
            None => "mp"@ + id_text@,
        },
{
    if let Some(n) = name {
        if !unused_disk {
            let c = str_chars(n);
            return string_from_chars(c.as_slice());
        }
    }
    let mut out: Vec<char> = Vec::new();
    push_str(&mut out, "mp");
    push_str(&mut out, id_text);
    string_from_chars(out.as_slice())
}

// ---------------------------------------------------------------------------
// Disks
// ---------------------------------------------------------------------------

/// The bus of a disk, by the prefix of its key.
#[derive(Clone, Copy, PartialEq, Eq, Structural, Debug)]
pub enum DiskBus {
    Ide,
    Sata,
    Scsi,
    Virtio,
}

/// The bus of a disk key, if it is one of the supported buses.
pub open spec fn disk_bus_spec(name: Seq<char>) -> Option<DiskBus> {
    if has_prefix(name, "ide"@) {
        Some(DiskBus::Ide)
    } else if has_prefix(name, "sata"@) {
        Some(DiskBus::Sata)
    } else if has_prefix(name, "scsi"@) {
        Some(DiskBus::Scsi)
    } else if has_prefix(name, "virtio"@) {
        Some(DiskBus::Virtio)
    } else {
        None
    }
}

/// The bus of a disk key (`scsi0` is on the SCSI bus); `None` for unsupported devices.
pub fn disk_bus(name: &str) -> (r: Option<DiskBus>)
    ensures
        r == disk_bus_spec(name@),
{
    let n = str_chars(name);
    let ide = str_chars("ide");
    let sata = str_chars("sata");
    let scsi = str_chars("scsi");
    let virtio = str_chars("virtio");
    if starts_with(n.as_slice(), ide.as_slice()) {
        Some(DiskBus::Ide)
    } else if starts_with(n.as_slice(), sata.as_slice()) {
        Some(DiskBus::Sata)
    } else if starts_with(n.as_slice(), scsi.as_slice()) {
        Some(DiskBus::Scsi)
    } else if starts_with(n.as_slice(), virtio.as_slice()) {
        Some(DiskBus::Virtio)
    } else {
        None
    }
}

/// Why a disk's discard setting cannot be shown.
#[derive(Clone, Copy, PartialEq, Eq, Structural, Debug)]
pub enum DiscardError {
    /// The value is a string other than `on` and `ignore`.
    UnknownValue,
}

/// The discard checkbox of a disk: `on` checks it, `ignore` or no string leaves it
/// unchecked, any other string is an error.
pub fn discard_checkbox(discard: Option<&JsonValue>) -> (r: Result<bool, DiscardError>)
    ensures
        r == match discard {
            Some(v) => match jview(*v) {
                Json::Str(s) => if s == "on"@ {
                    Ok(true)
                } else if s == "ignore"@ {
                    Ok(false)
                } else {
                    Err(DiscardError::UnknownValue)
                },
                _ => Ok::<bool, DiscardError>(false),
            },
            None => Ok(false),
        },
{
    match discard {
        Some(JsonValue::Str(s)) => {
            let c = str_chars(s.as_str());
            let on = str_chars("on");
            let ignore = str_chars("ignore");
            if chars_eq(c.as_slice(), on.as_slice()) {
                Ok(true)
            } else if chars_eq(c.as_slice(), ignore.as_slice()) {
                Ok(false)
            } else {
                Err(DiscardError::UnknownValue)
            }
        },
        _ => Ok(false),
    }
}

/// The discard setting of a checkbox state.
pub fn discard_value(checked: bool) -> (r: &'static str)
    ensures
        r@ == if checked {
            "on"@
        } else {
            "ignore"@
        },
{
    if checked {
        "on"
    } else {
        "ignore"
    }
}

// ---------------------------------------------------------------------------
// Volumes and flags of the disk and mount point editors
// ---------------------------------------------------------------------------

/// Why a mount point number is refused.
#[derive(Clone, Copy, PartialEq, Eq, Structural, Debug)]
pub enum MountPointIdError {
    /// The number is beyond the mount points a container can have.
    OutOfRange,
    /// The container already has a mount point with that number.
    InUse,
}

/// Checks a mount point number: below the number of mount points a container can have,
/// and not one of the mount point keys in use.
pub fn validate_mount_point_id(used: &[String], id: u16) -> (r: Result<(), MountPointIdError>)
    ensures
        r is Ok <==> id < LXC_MAX_MOUNT_POINTS && !string_views(used@).contains(
            indexed_name("mp"@, id as nat),
        ),
        (r matches Err(MountPointIdError::OutOfRange)) <==> id >= LXC_MAX_MOUNT_POINTS,
{
    if id as u64 >= LXC_MAX_MOUNT_POINTS {
        return Err(MountPointIdError::OutOfRange);
    }
    let mut name: Vec<char> = Vec::new();
    push_str(&mut name, "mp");
    push_decimal(&mut name, id as u64);
    assert(name@ == indexed_name("mp"@, id as nat));
    let mut i: usize = 0;
    while i < used.len()
        invariant
            i <= used.len(),
            id < LXC_MAX_MOUNT_POINTS,
            name@ == indexed_name("mp"@, id as nat),
            forall|j: int| 0 <= j < i ==> used@[j]@ != name@,
        decreases used.len() - i,
    {
        let u = str_chars(used[i].as_str());
        if chars_eq(u.as_slice(), name.as_slice()) {
            assert(string_views(used@)[i as int] == name@);
            return Err(MountPointIdError::InUse);
        }
        i = i + 1;
    }
    proof {
        if string_views(used@).contains(name@) {
            let j = choose|j: int| 0 <= j < string_views(used@).len() && string_views(used@)[j] == name@;
            assert(used@[j]@ == name@);
        }
    }
    Ok(())
}

/// What a submitted disk or mount point uses as its volume.
#[derive(Debug, PartialEq)]
pub enum VolumeChoice {
    /// The volume the form holds.
    Keep,
    /// This volume (the unused volume being attached).
    Attach(String),
    /// A new image on the chosen storage, of the chosen size.
    NewImage,
}

/// Why a disk or mount point cannot be submitted.
#[derive(Clone, Copy, PartialEq, Eq, Structural, Debug)]
pub enum VolumeError {
    /// The unused volume entry does not hold a string.
    InvalidUnusedVolume,
}

/// The volume of a submitted disk or mount point: an attached unused volume is taken from
/// the configuration (and must be a string); a new one without a volume gets a new image;
/// otherwise the form's volume stays.
pub fn submitted_volume(
    unused_disk: Option<&str>,
    is_create: bool,
    record: &JsonValue,
    volume: &JsonValue,
) -> (r: Result<VolumeChoice, VolumeError>)
    ensures
        match unused_disk {
            Some(u) => match member(jview(*record), u@) {
                Some(Json::Str(s)) => r matches Ok(VolumeChoice::Attach(v)) && v@ == s,
                _ => r == Err::<VolumeChoice, VolumeError>(VolumeError::InvalidUnusedVolume),
            },
            None => if is_create && jview(*volume) == Json::Null {
                r matches Ok(VolumeChoice::NewImage)
            } else {
                r matches Ok(VolumeChoice::Keep)
            },
        },
{
    match unused_disk {
        Some(u) => {
            let key = str_chars(u);
            match get_member(record, key.as_slice()) {
                Some(k) => match record {
                    JsonValue::Object(e) => match &e[k].1 {
                        JsonValue::Str(s) => Ok(VolumeChoice::Attach(s.clone())),
                        _ => Err(VolumeError::InvalidUnusedVolume),
                    },
                    _ => Err(VolumeError::InvalidUnusedVolume),
                },
                None => Err(VolumeError::InvalidUnusedVolume),
            }
        },
        None => {
            let is_null = match volume {
                JsonValue::Null => true,
                _ => false,
            };
            if is_create && is_null {
                Ok(VolumeChoice::NewImage)
            } else {
                Ok(VolumeChoice::Keep)
            }
        },
    }
}

/// The field of the "skip replication" checkbox.
pub const NOREPLICATE_FIELD: &'static str = "_noreplicate_";

/// The part of a volume's property string that says whether it is replicated.
pub const REPLICATE_PART: &'static str = "_replicate";

/// The loaded record with the "skip replication" checkbox set from the `replicate` part:
/// checked exactly when replication is off; unchanged when the part is no boolean.
pub open spec fn with_noreplicate(v: Json) -> Json {
    match member(v, REPLICATE_PART@) {
        Some(Json::Bool(b)) => Json::Object(set_key(v->Object_0, NOREPLICATE_FIELD@, Json::Bool(!b))),
        _ => v,
    }
}

/// Sets the "skip replication" checkbox of a loaded disk or mount point.
pub fn load_noreplicate(record: &mut JsonValue)
    ensures
        jview(*final(record)) == with_noreplicate(jview(*old(record))),
{
    let key = str_chars(REPLICATE_PART);
    let flag = match get_member(record, key.as_slice()) {
        Some(k) => match &*record {
            JsonValue::Object(e) => match &e[k].1 {
                JsonValue::Bool(b) => Some(*b),
                _ => None,
            },
            _ => None,
        },
        None => None,
    };
    match flag {
        Some(b) => match record {
            JsonValue::Object(e) => {
                proof {
                    lemma_jentries(e@);
                }
                set_entry(e, NOREPLICATE_FIELD.to_string(), JsonValue::Bool(!b));
            },
            _ => {},
        },
        None => {},
    }
}

/// The submitted record with the `replicate` part set from the "skip replication" checkbox
/// when the checkbox has a value.
pub open spec fn with_replicate(v: Json, no_replicate: Option<bool>) -> Json {
    match (v, no_replicate) {
        (Json::Object(e), Some(b)) => Json::Object(set_key(e, REPLICATE_PART@, Json::Bool(!b))),
        _ => v,
    }
}

/// Sets the `replicate` part of submitted disk or mount point data from the "skip
/// replication" checkbox.
pub fn submit_replicate(data: &mut JsonValue, no_replicate: Option<bool>)
    ensures
        jview(*final(data)) == with_replicate(jview(*old(data)), no_replicate),
{
    match no_replicate {
        Some(b) => match data {
            JsonValue::Object(e) => {
                set_entry(e, REPLICATE_PART.to_string(), JsonValue::Bool(!b));
            },
            _ => {},
        },
        None => {},
    }
}

fn bool_entry(key: &str, b: bool) -> (r: (String, JsonValue))
    ensures
        r.0@ == key@,
        r.1 == JsonValue::Bool(b),
{
    (key.to_string(), JsonValue::Bool(b))
}

/// The default values of a container mount point's parts, which a submission leaves out.
pub open spec fn mount_point_defaults_spec() -> Json {
    Json::Object(
        seq![
            ("_replicate"@, Json::Bool(true)),
            ("_acl"@, Json::Bool(false)),
            ("_quota"@, Json::Bool(false)),
            ("_ro"@, Json::Bool(false)),
            ("_backup"@, Json::Bool(false)),
            ("_shared"@, Json::Bool(false)),
        ],
    )
}

/// The default values of a container mount point's parts.
pub fn mount_point_defaults() -> (r: JsonValue)
    ensures
        jview(r) == mount_point_defaults_spec(),
{
    let e = vec![
        bool_entry("_replicate", true),
        bool_entry("_acl", false),
        bool_entry("_quota", false),
        bool_entry("_ro", false),
        bool_entry("_backup", false),
        bool_entry("_shared", false),
    ];
    proof {
        lemma_jentries(e@);
        assert(jentries(e@) =~= mount_point_defaults_spec()->Object_0);
    }
    JsonValue::Object(e)
}

/// The default values of a virtual machine disk's parts, which a submission leaves out.
pub open spec fn disk_defaults_spec() -> Json {
    Json::Object(
        seq![
            ("_discard"@, Json::Str("ignore"@)),
            ("_replicate"@, Json::Bool(true)),
            ("_ro"@, Json::Bool(false)),
            ("_backup"@, Json::Bool(true)),
            ("_iothread"@, Json::Bool(false)),
            ("_ssd"@, Json::Bool(false)),
        ],
    )
}

/// The default values of a virtual machine disk's parts.
pub fn disk_defaults() -> (r: JsonValue)
    ensures
        jview(r) == disk_defaults_spec(),
{
    let e = vec![
        ("_discard".to_string(), JsonValue::Str("ignore".to_string())),
        bool_entry("_replicate", true),
        bool_entry("_ro", false),
        bool_entry("_backup", true),
        bool_entry("_iothread", false),
        bool_entry("_ssd", false),
    ];
    proof {
        lemma_jentries(e@);
        assert(jentries(e@) =~= disk_defaults_spec()->Object_0);
    }
    JsonValue::Object(e)
}

/// Whether the backup checkbox of a mount point is enabled: not for a bind mount, not for the
/// root file system.
pub fn backup_enabled(bind_mount: bool, rootfs: bool) -> (r: bool)
    ensures
        r == !(bind_mount || rootfs),
{
    !(bind_mount || rootfs)
}

/// The field that holds the number of a new mount point.
pub const MOUNT_POINT_ID_FIELD: &'static str = "_mount_point_id_";

/// The first free mount point number of a configuration, given its entries.
pub open spec fn first_free_mount_point(e: Seq<(Seq<char>, Json)>) -> Option<nat> {
    first_free_from(
        select_keys(keys_of(e), |k: Seq<char>| is_mount_point_key(k)),
        "mp"@,
        0,
        LXC_MAX_MOUNT_POINTS as nat,
    )
}

/// A number, or `null` for none.
pub open spec fn number_or_null(n: Option<nat>) -> Json {
    match n {
        Some(n) => Json::Number(decimal_spec(n)),
        None => Json::Null,
    }
}

/// The loaded configuration of the mount point editor: the first free mount point number
/// under `_mount_point_id_`, and for a new mount point (no name, no unused volume) backup
/// switched on.
pub open spec fn mount_point_load_spec(e: Seq<(Seq<char>, Json)>, name_given: bool, unused_disk: bool) -> Seq<
    (Seq<char>, Json),
> {
    let e1 = set_key(e, MOUNT_POINT_ID_FIELD@, number_or_null(first_free_mount_point(e)));
    if !unused_disk && !name_given {
        set_key(e1, "_backup"@, Json::Bool(true))
    } else {
        e1
    }
}

/// Prepares a loaded container configuration for the mount point editor (a `null` record
/// becomes an object). Reading an existing mount point's property string into its parts is
/// done before, by the schema.
pub fn mount_point_load(record: &mut JsonValue, name_given: bool, unused_disk: bool)
    requires
        jview(*old(record)) is Object || jview(*old(record)) is Null,
    ensures
        jview(*final(record)) == Json::Object(
            mount_point_load_spec(entries_of(jview(*old(record))), name_given, unused_disk),
        ),
{
    let used = extract_used_mount_points(record);
    let first = first_unused_mount_point(used.as_slice());
    let id_value = match first {
        Some(n) => {
            let mut d: Vec<char> = Vec::new();
            push_decimal(&mut d, n as u64);
            JsonValue::Number(string_from_chars(d.as_slice()))
        },
        None => JsonValue::Null,
    };
    let ghost idv = jview(id_value);
    assert(idv == number_or_null(first_free_mount_point(entries_of(jview(*record)))));
    let mut e: Vec<(String, JsonValue)> = match record {
        JsonValue::Object(e) => clone_entries(e),
        _ => {
            let v: Vec<(String, JsonValue)> = Vec::new();
            proof {
                lemma_jentries(v@);
                assert(jentries(v@) =~= entries_of(jview(*record)));
            }
            v
        },
    };
    set_entry(&mut e, MOUNT_POINT_ID_FIELD.to_string(), id_value);
    if !unused_disk && !name_given {
        set_entry(&mut e, "_backup".to_string(), JsonValue::Bool(true));
    }
    *record = JsonValue::Object(e);
}

} // verus!

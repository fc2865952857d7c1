//! Decisions of the virtual machine property editors: memory and ballooning, AMD SEV,
//! processors and disks.
use vstd::prelude::*;
use crate::guest::{has_prefix, unused_key_id, parse_unused_key};
use crate::text::{
    chars_eq, decimal_spec, push_decimal, push_str, starts_with, str_chars, string_from_chars,
};
use crate::options::lex_le;
use crate::http::{percent_encode_component, percent_encoded_component};
use crate::json::{
    get_member, index_is_null, index_is_str, index_key, jentries, jview, member, set_entry, set_key, Json, JsonValue,
};
use crate::lxc::pair_views;

verus! {

// ---------------------------------------------------------------------------
// Memory
// ---------------------------------------------------------------------------

/// Memory in MiB a virtual machine has when its configuration does not say.
pub const DEFAULT_MEMORY_MIB: u64 = 512;

/// How the memory setting is shown.
#[derive(Clone, Copy, PartialEq, Eq, Structural, Debug)]
pub enum MemoryShown {
    /// The memory alone.
    Plain(u64),
    /// The memory, with ballooning disabled.
    BalloonOff(u64),
    /// The minimum (balloon) and maximum memory.
    Range(u64, u64),
}

/// The memory shown for a configured amount (MiB) and balloon target: ballooning 0 is off,
/// a balloon below the memory shows as a range.
pub fn memory_shown(current: u64, balloon: Option<u64>) -> (r: MemoryShown)
    ensures
        r == match balloon {
            Some(0) => MemoryShown::BalloonOff(current),
            Some(b) => if current > b {
                MemoryShown::Range(b, current)
            } else {
                MemoryShown::Plain(current)
            },
            None => MemoryShown::Plain(current),
        },
{
    match balloon {
        Some(0) => MemoryShown::BalloonOff(current),
        Some(b) => if current > b {
            MemoryShown::Range(b, current)
        } else {
            MemoryShown::Plain(current)
        },
        None => MemoryShown::Plain(current),
    }
}

/// What the balloon field shows when the editor loads.
#[derive(Clone, Copy, PartialEq, Eq, Structural, Debug)]
pub enum BalloonField {
    /// Leave it as loaded.
    Keep,
    /// Clear it (ballooning is off).
    Clear,
    /// Fill in this amount.
    Fill(u64),
}

/// The editor's initial memory state: whether ballooning is used (a balloon of 0 turns it
/// off), what the balloon field shows, and the memory remembered to follow changes (only
/// when the memory is known).
pub fn memory_load(balloon: Option<u64>, current: Option<u64>) -> (r: (bool, BalloonField, Option<u64>))
    ensures
        r.0 == (balloon != Some(0u64)),
        r.1 == match current {
            Some(c) => match balloon {
                Some(0) => BalloonField::Clear,
                Some(_) => BalloonField::Keep,
                None => BalloonField::Fill(c),
            },
            None => BalloonField::Keep,
        },
        r.2 == current,
{
    let use_ballooning = match balloon {
        Some(0) => false,
        _ => true,
    };
    let field = match current {
        Some(c) => match balloon {
            Some(0) => BalloonField::Clear,
            Some(_) => BalloonField::Keep,
            None => BalloonField::Fill(c),
        },
        None => BalloonField::Keep,
    };
    (use_ballooning, field, current)
}

/// The submitted memory settings: with ballooning switched off the balloon is set to 0
/// (which disables it) and the shares are cleared (so that they get deleted).
pub open spec fn memory_submit_spec(e: Seq<(Seq<char>, Json)>, use_ballooning: bool) -> Seq<
    (Seq<char>, Json),
> {
    if use_ballooning {
        e
    } else {
        set_key(set_key(e, "balloon"@, Json::Number("0"@)), "shares"@, Json::Null)
    }
}

/// Applies the ballooning switch to the submitted memory settings (a `null` record becomes
/// an object when it changes).
pub fn memory_submit(data: &mut JsonValue, use_ballooning: bool)
    requires
        jview(*old(data)) is Object || jview(*old(data)) is Null,
    ensures
        use_ballooning ==> *final(data) == *old(data),
        !use_ballooning ==> jview(*final(data)) == Json::Object(
            memory_submit_spec(crate::json::entries_of(jview(*old(data))), false),
        ),
{
    if use_ballooning {
        return;
    }
    let mut e: Vec<(String, JsonValue)> = match data {
        JsonValue::Object(e) => crate::json::clone_entries(e),
        _ => {
            let v: Vec<(String, JsonValue)> = Vec::new();
            proof {
                crate::json::lemma_jentries(v@);
                assert(jentries(v@) =~= crate::json::entries_of(jview(*data)));
            }
            v
        },
    };
    set_entry(&mut e, "balloon".to_string(), JsonValue::Number("0".to_string()));
    set_entry(&mut e, "shares".to_string(), JsonValue::Null);
    *data = JsonValue::Object(e);
}

/// After the memory changed: a balloon that equalled the old memory follows the new
/// memory (returned as the new balloon value); the new memory is remembered.
pub fn memory_changed(old_memory: Option<u64>, current: Option<u64>, balloon: Option<u64>) -> (r: (
    Option<u64>,
    Option<u64>,
))
    ensures
        r.0 == match (old_memory, current, balloon) {
            (Some(o), Some(c), Some(b)) => if b == o && o != c {
                Some(c)
            } else {
                None
            },
            _ => None,
        },
        r.1 == match current {
            Some(c) => Some(c),
            None => old_memory,
        },
{
    let follow = match (old_memory, current, balloon) {
        (Some(o), Some(c), Some(b)) => if b == o && o != c {
            Some(c)
        } else {
            None
        },
        _ => None,
    };
    let remembered = match current {
        Some(c) => Some(c),
        None => old_memory,
    };
    (follow, remembered)
}

// ---------------------------------------------------------------------------
// AMD SEV
// ---------------------------------------------------------------------------

/// The checkboxes of the SEV editor from the loaded flags: debugging and key sharing are
/// allowed unless the configuration forbids them.
pub fn sev_load(no_debug: Option<bool>, no_key_sharing: Option<bool>) -> (r: (bool, bool))
    ensures
        r.0 == !(no_debug == Some(true)),
        r.1 == !(no_key_sharing == Some(true)),
{
    let nd = match no_debug {
        Some(b) => b,
        None => false,
    };
    let nk = match no_key_sharing {
        Some(b) => b,
        None => false,
    };
    (!nd, !nk)
}

/// What the SEV editor submits besides the form's own fields.
pub struct SevSubmit {
    /// Delete the setting (no type chosen); nothing else is submitted.
    pub delete: bool,
    /// Submit `no-debug`.
    pub no_debug: bool,
    /// Submit `no-key-sharing`.
    pub no_key_sharing: bool,
    /// Submit `allow-smt=0`.
    pub deny_smt: bool,
    /// Submit `kernel-hashes`.
    pub kernel_hashes: bool,
}

/// The SEV submit decisions for a type (`std`, `es`, `snp`, or empty) and the checkboxes:
/// key sharing applies to the non-SNP types, SMT to SNP only.
pub fn sev_submit(ty: &str, debug: bool, key_sharing: bool, allow_smt: bool, kernel_hashes: bool) -> (r:
    SevSubmit)
    ensures
        r.delete == (ty@.len() == 0),
        ty@.len() == 0 ==> !r.no_debug && !r.no_key_sharing && !r.deny_smt && !r.kernel_hashes,
        ty@.len() != 0 ==> {
            &&& r.no_debug == !debug
            &&& r.no_key_sharing == (!key_sharing && ty@ != "snp"@)
            &&& r.deny_smt == (!allow_smt && ty@ == "snp"@)
            &&& r.kernel_hashes == kernel_hashes
        },
{
    let t = str_chars(ty);
    if t.len() == 0 {
        return SevSubmit {
            delete: true,
            no_debug: false,
            no_key_sharing: false,
            deny_smt: false,
            kernel_hashes: false,
        };
    }
    let snp = str_chars("snp");
    let is_snp = chars_eq(t.as_slice(), snp.as_slice());
    SevSubmit {
        delete: false,
        no_debug: !debug,
        no_key_sharing: !key_sharing && !is_snp,
        deny_smt: !allow_smt && is_snp,
        kernel_hashes,
    }
}

/// The SEV types.
#[derive(Clone, Copy, PartialEq, Eq, Structural, Debug)]
pub enum SevType {
    Std,
    Es,
    Snp,
}

/// The name a SEV type is shown with.
pub fn sev_type_label(ty: SevType) -> (r: &'static str)
    ensures
        r@ == match ty {
            SevType::Std => "AMD SEV"@,
            SevType::Es => "AMD SEV-ES"@,
            SevType::Snp => "AMD SEV-SNP"@,
        },
{
    match ty {
        SevType::Std => "AMD SEV",
        SevType::Es => "AMD SEV-ES",
        SevType::Snp => "AMD SEV-SNP",
    }
}

// ---------------------------------------------------------------------------
// Processors
// ---------------------------------------------------------------------------

/// The CPU type used when the configuration names none.
pub const DEFAULT_CPU_TYPE: &'static str = "kvm64";

/// The number of virtual CPUs: sockets times cores, each 1 when not configured.
pub fn cpu_count(sockets: Option<u64>, cores: Option<u64>) -> (r: u64)
    requires
        match (sockets, cores) {
            (Some(s), Some(c)) => s * c <= u64::MAX,
            _ => true,
        },
    ensures
        r == (match sockets {
            Some(s) => s,
            None => 1,
        }) * (match cores {
            Some(c) => c,
            None => 1,
        }),
{
    let s = match sockets {
        Some(s) => s,
        None => 1,
    };
    let c = match cores {
        Some(c) => c,
        None => 1,
    };
    s * c
}

// ---------------------------------------------------------------------------
// Disks
// ---------------------------------------------------------------------------

/// What a disk editor edits.
#[derive(Clone, Copy, PartialEq, Eq, Structural, Debug)]
pub enum DiskRole {
    /// A new disk.
    New,
    /// An unused volume, with its number if the key has one.
    Unused(Option<usize>),
    /// An attached disk.
    Attached,
}

/// The role of a disk editor for a configuration key (none for a new disk).
pub fn disk_role(name: Option<&str>) -> (r: DiskRole)
    ensures
        r == match name {
            None => DiskRole::New,
            Some(n) => if has_prefix(n@, "unused"@) {
                DiskRole::Unused(
                    match unused_key_id(n@) {
                        Some(id) => Some(id as usize),
                        None => None,
                    },
                )
            } else {
                DiskRole::Attached
            },
        },
{
    match name {
        None => DiskRole::New,
        Some(n) => {
            let c = str_chars(n);
            let unused = str_chars("unused");
            if starts_with(c.as_slice(), unused.as_slice()) {
                DiskRole::Unused(parse_unused_key(n))
            } else {
                DiskRole::Attached
            }
        },
    }
}

/// The bus flags of a disk: SCSI, VirtIO, and whether the SCSI controller is
/// `virtio-scsi-single`.
pub struct BusFlags {
    pub is_scsi: bool,
    pub is_virtio: bool,
    pub virtio_scsi_single: bool,
}

/// The bus flags of a device name and SCSI controller type.
pub fn bus_flags(device: &str, scsihw: Option<&str>) -> (r: BusFlags)
    ensures
        r.is_scsi == has_prefix(device@, "scsi"@),
        r.is_virtio == has_prefix(device@, "virtio"@),
        r.virtio_scsi_single == match scsihw {
            Some(h) => h@ == "virtio-scsi-single"@,
            None => false,
        },
{
    let d = str_chars(device);
    let scsi = str_chars("scsi");
    let virtio = str_chars("virtio");
    let single = match scsihw {
        Some(h) => {
            let hc = str_chars(h);
            let v = str_chars("virtio-scsi-single");
            chars_eq(hc.as_slice(), v.as_slice())
        },
        None => false,
    };
    BusFlags {
        is_scsi: starts_with(d.as_slice(), scsi.as_slice()),
        is_virtio: starts_with(d.as_slice(), virtio.as_slice()),
        virtio_scsi_single: single,
    }
}

/// The IO thread setting a new or unused disk gets when its bus flags change: on for
/// VirtIO, and for SCSI behind a `virtio-scsi-single` controller. `None` leaves the
/// setting alone (an attached disk, or unchanged flags).
pub fn forced_iothread(editing_new_volume: bool, before: &BusFlags, now: &BusFlags) -> (r: Option<bool>)
    ensures
        r == if editing_new_volume && (before.virtio_scsi_single != now.virtio_scsi_single
            || before.is_scsi != now.is_scsi || before.is_virtio != now.is_virtio) {
            Some(now.is_virtio || (now.is_scsi && now.virtio_scsi_single))
        } else {
            None
        },
{
    if editing_new_volume && (before.virtio_scsi_single != now.virtio_scsi_single || before.is_scsi
        != now.is_scsi || before.is_virtio != now.is_virtio) {
        Some(now.is_virtio || (now.is_scsi && now.virtio_scsi_single))
    } else {
        None
    }
}

/// Whether an ISO file lies on the chosen storage (`storage:...`); the file field is cleared
/// otherwise.
pub fn file_on_storage(file: &str, storage: &str) -> (r: bool)
    ensures
        r == has_prefix(file@, storage@ + ":"@),
{
    let f = str_chars(file);
    let mut prefix: Vec<char> = Vec::new();
    push_str(&mut prefix, storage);
    push_str(&mut prefix, ":");
    starts_with(f.as_slice(), prefix.as_slice())
}

// ---------------------------------------------------------------------------
// Disk formats and CPU models
// ---------------------------------------------------------------------------

/// A disk image format.
#[derive(Clone, Copy, PartialEq, Eq, Structural, Debug)]
pub enum DiskFormat {
    Raw,
    Qcow2,
    Vmdk,
}

/// Whether a format is offered: any when the storage does not list its formats.
pub open spec fn format_offered(supported: Option<Seq<DiskFormat>>, f: DiskFormat) -> bool {
    match supported {
        Some(list) => list.contains(f),
        None => true,
    }
}

fn offered(supported: Option<&[DiskFormat]>, f: DiskFormat) -> (r: bool)
    ensures
        r == format_offered(
            match supported {
                Some(l) => Some(l@),
                None => None,
            },
            f,
        ),
{
    match supported {
        Some(list) => {
            let mut i: usize = 0;
            while i < list.len()
                invariant
                    i <= list.len(),
                    supported == Some(list),
                    forall|k: int| 0 <= k < i ==> list@[k] != f,
                decreases list.len() - i,
            {
                if list[i] == f {
                    assert(list@[i as int] == f);
                    return true;
                }
                i = i + 1;
            }
            false
        },
        None => true,
    }
}

/// The formats a disk can be created with: raw, qcow2 and vmdk, in that order, each when
/// the storage supports it.
pub fn disk_formats(supported: Option<&[DiskFormat]>) -> (r: Vec<DiskFormat>)
    ensures
        ({
            let s = match supported {
                Some(l) => Some(l@),
                None => None,
            };
            r@ == seq![DiskFormat::Raw, DiskFormat::Qcow2, DiskFormat::Vmdk].filter(
                |f: DiskFormat| format_offered(s, f),
            )
        }),
{
    let mut v: Vec<DiskFormat> = Vec::new();
    if offered(supported, DiskFormat::Raw) {
        v.push(DiskFormat::Raw);
    }
    if offered(supported, DiskFormat::Qcow2) {
        v.push(DiskFormat::Qcow2);
    }
    if offered(supported, DiskFormat::Vmdk) {
        v.push(DiskFormat::Vmdk);
    }
    proof {
        let s = match supported {
            Some(l) => Some(l@),
            None => None,
        };
        let p = |f: DiskFormat| format_offered(s, f);
        let all = seq![DiskFormat::Raw, DiskFormat::Qcow2, DiskFormat::Vmdk];
        assert(all.take(1) == seq![DiskFormat::Raw]);
        assert(all.take(2) == seq![DiskFormat::Raw].push(DiskFormat::Qcow2));
        assert(all == all.take(2).push(DiskFormat::Vmdk));
        seq![DiskFormat::Raw].lemma_filter_push(DiskFormat::Qcow2, p);
        Seq::<DiskFormat>::empty().lemma_filter_push(DiskFormat::Raw, p);
        all.take(2).lemma_filter_push(DiskFormat::Vmdk, p);
        assert(seq![DiskFormat::Raw] == Seq::<DiskFormat>::empty().push(DiskFormat::Raw));
        assert(Seq::<DiskFormat>::empty().filter(p) =~= Seq::<DiskFormat>::empty());
        assert(v@ =~= all.filter(p));
    }
    v
}

/// The name of a disk format.
pub fn disk_format_name(f: DiskFormat) -> (r: &'static str)
    ensures
        r@ == match f {
            DiskFormat::Raw => "raw"@,
            DiskFormat::Qcow2 => "qcow2"@,
            DiskFormat::Vmdk => "vmdk"@,
        },
{
    match f {
        DiskFormat::Raw => "raw",
        DiskFormat::Qcow2 => "qcow2",
        DiskFormat::Vmdk => "vmdk",
    }
}

/// Where the CPU models of a node are read: on a remote, the node name goes where the
/// remote is expected and the remote where the node is (as the API client does it); locally,
/// `localhost` unless a node is given.
pub fn cpu_model_list_url(node: Option<&str>, remote: Option<&str>) -> (r: String)
    ensures
        ({
            let n = match node {
                Some(n) => n@,
                None => "localhost"@,
            };
            r@ == match remote {
                Some(rem) => "/pve/remotes/"@ + percent_encoded_component(n) + "/nodes/"@
                    + percent_encoded_component(rem@) + "/capabilities/qemu/cpu"@,
                None => "/nodes/"@ + percent_encoded_component(n) + "/capabilities/qemu/cpu"@,
            }
        }),
{
    let n = match node {
        Some(n) => n,
        None => "localhost",
    };
    let mut v: Vec<char> = Vec::new();
    match remote {
        Some(rem) => {
            push_str(&mut v, "/pve/remotes/");
            let a = percent_encode_component(n);
            push_str(&mut v, a.as_str());
            push_str(&mut v, "/nodes/");
            let b = percent_encode_component(rem);
            push_str(&mut v, b.as_str());
            push_str(&mut v, "/capabilities/qemu/cpu");
        },
        None => {
            push_str(&mut v, "/nodes/");
            let a = percent_encode_component(n);
            push_str(&mut v, a.as_str());
            push_str(&mut v, "/capabilities/qemu/cpu");
        },
    }
    string_from_chars(v.as_slice())
}

/// A CPU model a node offers.
pub struct CpuModel {
    pub name: String,
    pub vendor: String,
    pub custom: bool,
}

/// The model of a CPU model entry.
pub open spec fn cpu_model_view(m: CpuModel) -> (Seq<char>, Seq<char>, bool) {
    (m.name@, m.vendor@, m.custom)
}

/// The models of a list of CPU model entries.
pub open spec fn cpu_models_view(v: Seq<CpuModel>) -> Seq<(Seq<char>, Seq<char>, bool)> {
    v.map_values(|m: CpuModel| cpu_model_view(m))
}

/// `lex_le` on character slices.
fn lex_le_chars(a: &[char], b: &[char]) -> (r: bool)
    ensures
        r == lex_le(a@, b@),
{
    let mut i: usize = 0;
    proof {
        assert(a@.skip(0) =~= a@);
        assert(b@.skip(0) =~= b@);
        assert(a@.take(0) =~= b@.take(0));
    }
    while i < a.len() && i < b.len()
        invariant
            i <= a.len(),
            i <= b.len(),
            a@.take(i as int) == b@.take(i as int),
            lex_le(a@, b@) == lex_le(a@.skip(i as int), b@.skip(i as int)),
        decreases a.len() - i,
    {
        if a[i] != b[i] {
            proof {
                assert(a@.skip(i as int)[0] == a@[i as int]);
                assert(b@.skip(i as int)[0] == b@[i as int]);
            }
            return a[i] < b[i];
        }
        proof {
            assert(a@.skip(i as int).drop_first() == a@.skip(i + 1));
            assert(b@.skip(i as int).drop_first() == b@.skip(i + 1));
            assert(a@.take(i + 1) == a@.take(i as int).push(a@[i as int]));
            assert(b@.take(i + 1) == b@.take(i as int).push(b@[i as int]));
        }
        i = i + 1;
    }
    proof {
        assert(a@.skip(0) == a@);
        assert(b@.skip(0) == b@);
    }
    i == a.len()
}

/// Sorts CPU models by name (stable).
pub fn sort_cpu_models(models: Vec<CpuModel>) -> (r: Vec<CpuModel>)
    ensures
        cpu_models_view(r@).to_multiset() == cpu_models_view(models@).to_multiset(),
        forall|i: int, j: int|
            0 <= i < j < r@.len() ==> lex_le(#[trigger] r@[i].name@, #[trigger] r@[j].name@),
{
    let mut out: Vec<CpuModel> = Vec::new();
    let mut rest = models;
    let ghost all = cpu_models_view(rest@);
    let n = rest.len();
    let mut taken: usize = 0;
    proof {
        assert(all.take(0) =~= Seq::<(Seq<char>, Seq<char>, bool)>::empty());
        assert(all.skip(0) =~= all);
        assert(cpu_models_view(out@) =~= Seq::<(Seq<char>, Seq<char>, bool)>::empty());
    }
    while rest.len() > 0
        invariant
            all.len() == n,
            taken + rest@.len() == all.len(),
            cpu_models_view(rest@) == all.skip(taken as int),
            cpu_models_view(out@).to_multiset() == all.take(taken as int).to_multiset(),
            forall|i: int, j: int|
                0 <= i < j < out@.len() ==> lex_le(#[trigger] out@[i].name@, #[trigger] out@[j].name@),
        decreases rest@.len(),
    {
        let ghost old_rest = rest@;
        let x = rest.remove(0);
        let ghost xv = cpu_model_view(x);
        proof {
            assert(cpu_models_view(old_rest)[0] == xv);
            assert(all.skip(taken as int)[0] == xv);
            assert(cpu_models_view(rest@) =~= cpu_models_view(old_rest).drop_first());
            assert(all.skip(taken as int).drop_first() =~= all.skip(taken + 1));
            assert(all.take(taken + 1) == all.take(taken as int).push(xv));
            assert(cpu_models_view(rest@) == all.skip(taken + 1));
        }
        let xn = str_chars(x.name.as_str());
        let mut p: usize = 0;
        while p < out.len()
            invariant
                p <= out.len(),
                xn@ == x.name@,
                forall|k: int| 0 <= k < p ==> lex_le(#[trigger] out@[k].name@, x.name@),
            ensures
                p <= out.len(),
                forall|k: int| 0 <= k < p ==> lex_le(#[trigger] out@[k].name@, x.name@),
                p < out.len() ==> !lex_le(out@[p as int].name@, x.name@),
            decreases out.len() - p,
        {
            let on = str_chars(out[p].name.as_str());
            if !lex_le_chars(on.as_slice(), xn.as_slice()) {
                break;
            }
            p = p + 1;
        }
        let ghost before = out@;
        let ghost xname = x.name@;
        proof {
            if p < out.len() {
                crate::options::lemma_lex_total(before[p as int].name@, xname);
            }
        }
        out.insert(p, x);
        proof {
            assert(cpu_models_view(out@) =~= cpu_models_view(before).insert(p as int, xv));
            vstd::seq_lib::to_multiset_insert(cpu_models_view(before), p as int, xv);
            vstd::seq_lib::to_multiset_build(all.take(taken as int), xv);
            assert forall|i: int, j: int| 0 <= i < j < out@.len() implies lex_le(
                #[trigger] out@[i].name@,
                #[trigger] out@[j].name@,
            ) by {
                if j < p {
                    assert(out@[i] == before[i] && out@[j] == before[j]);
                } else if j == p {
                    assert(out@[i] == before[i]);
                } else if i == p {
                    assert(out@[j] == before[j - 1]);
                    if j - 1 > p {
                        assert(lex_le(before[p as int].name@, before[j - 1].name@));
                        crate::options::lemma_lex_trans(xname, before[p as int].name@, before[j - 1].name@);
                    }
                } else if i < p {
                    assert(out@[i] == before[i] && out@[j] == before[j - 1]);
                } else {
                    assert(out@[i] == before[i - 1] && out@[j] == before[j - 1]);
                }
            }
        }
        taken = taken + 1;
    }
    proof {
        assert(all.take(all.len() as int) == all);
    }
    out
}

// ---------------------------------------------------------------------------
// SMBIOS settings
// ---------------------------------------------------------------------------

/// The SMBIOS text fields that are stored base64 encoded (all but the UUID).
pub open spec fn smbios_text_fields() -> Seq<Seq<char>> {
    seq!["_manufacturer"@, "_product"@, "_version"@, "_serial"@, "_sku"@, "_family"@]
}

fn smbios_text_field_names() -> (r: Vec<&'static str>)
    ensures
        r@.map_values(|s: &str| s@) == smbios_text_fields(),
{
    let r = vec!["_manufacturer", "_product", "_version", "_serial", "_sku", "_family"];
    assert(r@.map_values(|s: &str| s@) =~= smbios_text_fields());
    r
}

/// The string values among the listed fields of a record, with their field, in list order.
pub open spec fn string_fields(v: Json, fields: Seq<Seq<char>>) -> Seq<(Seq<char>, Seq<char>)>
    decreases fields.len(),
{
    if fields.len() == 0 {
        Seq::empty()
    } else {
        let rest = string_fields(v, fields.drop_last());
        match member(v, fields.last()) {
            Some(Json::Str(s)) => rest.push((fields.last(), s)),
            _ => rest,
        }
    }
}

fn collect_string_fields(value: &JsonValue, fields: &Vec<&'static str>) -> (r: Vec<(String, String)>)
    ensures
        pair_views(r@) == string_fields(jview(*value), fields@.map_values(|s: &str| s@)),
{
    let ghost names = fields@.map_values(|s: &str| s@);
    let mut r: Vec<(String, String)> = Vec::new();
    let mut i: usize = 0;
    while i < fields.len()
        invariant
            i <= fields.len(),
            names == fields@.map_values(|s: &str| s@),
            pair_views(r@) == string_fields(jview(*value), names.take(i as int)),
        decreases fields.len() - i,
    {
        let name = fields[i];
        let key = str_chars(name);
        assert(names.take(i + 1).drop_last() =~= names.take(i as int));
        assert(names.take(i + 1).last() == name@);
        match get_member(value, key.as_slice()) {
            Some(k) => {
                match value {
                    JsonValue::Object(e) => {
                        match &e[k].1 {
                            JsonValue::Str(text) => {
                                let ghost before = r@;
                                r.push((name.to_string(), text.clone()));
                                assert(pair_views(r@) =~= pair_views(before).push((name@, text@)));
                            },
                            _ => {},
                        }
                    },
                    _ => {},
                }
            },
            None => {},
        }
        i = i + 1;
    }
    assert(names.take(fields.len() as int) =~= names);
    r
}

/// The texts of a submitted SMBIOS form that are stored encoded: the string values of the
/// text fields, with their field, in field order.
pub fn smbios_texts_to_encode(value: &JsonValue) -> (r: Vec<(String, String)>)
    ensures
        pair_views(r@) == string_fields(jview(*value), smbios_text_fields()),
{
    let names = smbios_text_field_names();
    collect_string_fields(value, &names)
}

/// The texts of a loaded SMBIOS setting to decode: when its `_base64` flag is `true`, the
/// string values of the text fields; otherwise none.
pub fn smbios_texts_to_decode(record: &JsonValue) -> (r: Vec<(String, String)>)
    ensures
        pair_views(r@) == if member(jview(*record), "_base64"@) == Some(Json::Bool(true)) {
            string_fields(jview(*record), smbios_text_fields())
        } else {
            Seq::empty()
        },
{
    let flag = str_chars("_base64");
    let encoded = match get_member(record, flag.as_slice()) {
        Some(k) => match record {
            JsonValue::Object(e) => match &e[k].1 {
                JsonValue::Bool(b) => *b,
                _ => false,
            },
            _ => false,
        },
        None => false,
    };
    if encoded {
        smbios_texts_to_encode(record)
    } else {
        let r: Vec<(String, String)> = Vec::new();
        assert(pair_views(r@) =~= Seq::empty());
        r
    }
}

/// `record[field] = text` for each pair, in order.
pub open spec fn store_texts(e: Seq<(Seq<char>, Json)>, texts: Seq<(Seq<char>, Seq<char>)>) -> Seq<
    (Seq<char>, Json),
>
    decreases texts.len(),
{
    if texts.len() == 0 {
        e
    } else {
        set_key(store_texts(e, texts.drop_last()), texts.last().0, Json::Str(texts.last().1))
    }
}

fn store_entries(e: &mut Vec<(String, JsonValue)>, texts: &Vec<(String, String)>)
    ensures
        jentries(final(e)@) == store_texts(jentries(old(e)@), pair_views(texts@)),
{
    let ghost start = jentries(e@);
    let mut i: usize = 0;
    while i < texts.len()
        invariant
            i <= texts.len(),
            jentries(e@) == store_texts(start, pair_views(texts@).take(i as int)),
        decreases texts.len() - i,
    {
        let ghost pv = pair_views(texts@);
        assert(pv.take(i + 1).drop_last() =~= pv.take(i as int));
        assert(pv.take(i + 1).last() == (texts@[i as int].0@, texts@[i as int].1@));
        let key = texts[i].0.clone();
        let text = texts[i].1.clone();
        set_entry(e, key, JsonValue::Str(text));
        i = i + 1;
    }
    assert(pair_views(texts@).take(texts.len() as int) =~= pair_views(texts@));
}

/// Puts decoded texts back in a loaded SMBIOS record (those that decoded).
pub fn smbios_store_decoded(record: &mut JsonValue, decoded: &Vec<(String, String)>)
    requires
        decoded.len() == 0 || jview(*old(record)) is Object,
    ensures
        decoded.len() == 0 ==> *final(record) == *old(record),
        decoded.len() > 0 ==> jview(*final(record)) == Json::Object(
            store_texts(jview(*old(record))->Object_0, pair_views(decoded@)),
        ),
{
    if decoded.len() == 0 {
        return;
    }
    match record {
        JsonValue::Object(e) => {
            store_entries(e, decoded);
        },
        _ => {},
    }
}

/// Puts the encoded texts in a submitted SMBIOS form and, when there was any, sets its
/// `_base64` flag.
pub fn smbios_store_encoded(value: &mut JsonValue, encoded: &Vec<(String, String)>)
    requires
        encoded.len() == 0 || jview(*old(value)) is Object,
    ensures
        encoded.len() == 0 ==> *final(value) == *old(value),
        encoded.len() > 0 ==> jview(*final(value)) == Json::Object(
            set_key(
                store_texts(jview(*old(value))->Object_0, pair_views(encoded@)),
                "_base64"@,
                Json::Bool(true),
            ),
        ),
{
    if encoded.len() == 0 {
        return;
    }
    match value {
        JsonValue::Object(e) => {
            store_entries(e, encoded);
            set_entry(e, "_base64".to_string(), JsonValue::Bool(true));
        },
        _ => {},
    }
}

// ---------------------------------------------------------------------------
// Processor summary
// ---------------------------------------------------------------------------

/// `1 Core` or `N Cores` (and likewise for other units): a count with its unit in singular
/// or plural.
pub open spec fn count_words(n: nat, singular: Seq<char>, plural: Seq<char>) -> Seq<char> {
    if n == 1 {
        "1 "@ + singular
    } else {
        decimal_spec(n) + seq![' '] + plural
    }
}

/// ` [key=value]`, an extra setting in the processor summary.
pub open spec fn bracket_setting(key: Seq<char>, value: Seq<char>) -> Seq<char> {
    seq![' ', '['] + key + seq!['='] + value + seq![']']
}

/// The configured processor settings that the summary shows.
pub struct ProcessorSettings {
    /// The CPU type, `kvm64` when not configured.
    pub cpu: Option<String>,
    pub sockets: Option<u64>,
    pub cores: Option<u64>,
    pub numa: bool,
    pub vcpus: Option<u64>,
    /// The CPU limit, already formatted.
    pub cpulimit: Option<String>,
    pub cpuunits: Option<u64>,
    pub affinity: Option<String>,
}

/// The processor summary: `N (C Cores, S Sockets) [type]` and the extra settings that are
/// configured.
pub open spec fn processor_summary_spec(p: ProcessorSettings) -> Seq<char> {
    let sockets: nat = match p.sockets {
        Some(s) => s as nat,
        None => 1,
    };
    let cores: nat = match p.cores {
        Some(c) => c as nat,
        None => 1,
    };
    let cpu = match p.cpu {
        Some(c) => c@,
        None => DEFAULT_CPU_TYPE@,
    };
    decimal_spec(sockets * cores) + " ("@ + count_words(cores, "Core"@, "Cores"@) + ", "@
        + count_words(sockets, "Socket"@, "Sockets"@) + ") ["@ + cpu + "]"@ + (if p.numa {
        " [numa]"@
    } else {
        Seq::empty()
    }) + (match p.vcpus {
        Some(n) => bracket_setting("vcpus"@, decimal_spec(n as nat)),
        None => Seq::empty(),
    }) + (match p.cpulimit {
        Some(l) => bracket_setting("cpulimit"@, l@),
        None => Seq::empty(),
    }) + (match p.cpuunits {
        Some(n) => bracket_setting("cpuunits"@, decimal_spec(n as nat)),
        None => Seq::empty(),
    }) + (match p.affinity {
        Some(a) => bracket_setting("affinity"@, a@),
        None => Seq::empty(),
    })
}

fn push_count_words(out: &mut Vec<char>, n: u64, singular: &str, plural: &str)
    ensures
        final(out)@ == old(out)@ + count_words(n as nat, singular@, plural@),
{
    if n == 1 {
        push_str(out, "1 ");
        push_str(out, singular);
    } else {
        push_decimal(out, n);
        out.push(' ');
        push_str(out, plural);
    }
}

fn push_bracket_setting(out: &mut Vec<char>, key: &str, value: &[char])
    ensures
        final(out)@ == old(out)@ + bracket_setting(key@, value@),
{
    let ghost start = out@;
    out.push(' ');
    out.push('[');
    push_str(out, key);
    out.push('=');
    let mut i: usize = 0;
    let ghost mid = out@;
    while i < value.len()
        invariant
            i <= value.len(),
            out@ == mid + value@.take(i as int),
        decreases value.len() - i,
    {
        out.push(value[i]);
        i = i + 1;
        assert(out@ =~= mid + value@.take(i as int));
    }
    assert(value@.take(value.len() as int) =~= value@);
    out.push(']');
    assert(out@ =~= start + bracket_setting(key@, value@));
}

/// The processor summary shown for the processor settings.
pub fn processor_summary(p: &ProcessorSettings) -> (r: String)
    requires
        match (p.sockets, p.cores) {
            (Some(s), Some(c)) => s * c <= u64::MAX,
            _ => true,
        },
    ensures
        r@ == processor_summary_spec(*p),
{
    let count = cpu_count(p.sockets, p.cores);
    let cores = match p.cores {
        Some(c) => c,
        None => 1,
    };
    let sockets = match p.sockets {
        Some(s) => s,
        None => 1,
    };
    let mut out: Vec<char> = Vec::new();
    push_decimal(&mut out, count);
    push_str(&mut out, " (");
    push_count_words(&mut out, cores, "Core", "Cores");
    push_str(&mut out, ", ");
    push_count_words(&mut out, sockets, "Socket", "Sockets");
    push_str(&mut out, ") [");
    match &p.cpu {
        Some(c) => push_str(&mut out, c.as_str()),
        None => push_str(&mut out, DEFAULT_CPU_TYPE),
    }
    push_str(&mut out, "]");
    if p.numa {
        push_str(&mut out, " [numa]");
    }
    match p.vcpus {
        Some(n) => {
            let mut d: Vec<char> = Vec::new();
            push_decimal(&mut d, n);
            push_bracket_setting(&mut out, "vcpus", d.as_slice());
        },
        None => {},
    }
    match &p.cpulimit {
        Some(l) => {
            let c = str_chars(l.as_str());
            push_bracket_setting(&mut out, "cpulimit", c.as_slice());
        },
        None => {},
    }
    match p.cpuunits {
        Some(n) => {
            let mut d: Vec<char> = Vec::new();
            push_decimal(&mut d, n);
            push_bracket_setting(&mut out, "cpuunits", d.as_slice());
        },
        None => {},
    }
    match &p.affinity {
        Some(a) => {
            let c = str_chars(a.as_str());
            push_bracket_setting(&mut out, "affinity", c.as_slice());
        },
        None => {},
    }
    let r = string_from_chars(out.as_slice());
    assert(r@ =~= processor_summary_spec(*p));
    r
}

// ---------------------------------------------------------------------------
// Network MTU
// ---------------------------------------------------------------------------

/// The message for an MTU that is neither at least 576 nor 1.
pub const MTU_HINT: &'static str = "MTU needs to be >= 576 or 1 to inherit the MTU from the underlying bridge.";

/// Checks the MTU of a network device: at least 576, or 1 to take the bridge's.
pub fn validate_mtu(mtu: u16) -> (r: Result<(), String>)
    ensures
        r is Ok <==> (mtu >= 576 || mtu == 1),
        r matches Err(m) ==> m@ == MTU_HINT@,
{
    if mtu >= 576 || mtu == 1 {
        Ok(())
    } else {
        Err(MTU_HINT.to_string())
    }
}

// ---------------------------------------------------------------------------
// EFI, TPM state and Intel TDX
// ---------------------------------------------------------------------------

/// The volume of a new EFI or TPM state disk: `storage:1` on the chosen storage when the form
/// holds no file (the backend decides the size); `None` keeps the form's file.
pub fn state_disk_volume(file: &JsonValue, storage: &str) -> (r: Option<String>)
    ensures
        jview(*file) == Json::Null ==> (r matches Some(v) && v@ == storage@ + ":1"@),
        jview(*file) != Json::Null ==> r is None,
{
    match file {
        JsonValue::Null => {
            let mut out: Vec<char> = Vec::new();
            push_str(&mut out, storage);
            push_str(&mut out, ":1");
            Some(string_from_chars(out.as_slice()))
        },
        _ => None,
    }
}

/// The key of the Intel TDX setting.
pub const INTEL_TDX_KEY: &'static str = "intel-tdx";

/// The submission that removes the Intel TDX setting.
pub open spec fn tdx_removal_spec() -> Json {
    Json::Object(seq![("delete"@, Json::Array(seq![Json::Str(INTEL_TDX_KEY@)]))])
}

/// Whether the type field of the Intel TDX form holds a non-empty string.
pub open spec fn tdx_type_chosen(form_type: Option<Json>) -> bool {
    match form_type {
        Some(Json::Str(s)) => s.len() > 0,
        _ => false,
    }
}

/// The submission of the Intel TDX form when no type is chosen: the setting is removed.
/// `None` when a type is chosen and the form is submitted as a property string.
pub fn tdx_submit_removal(form_type: Option<&JsonValue>) -> (r: Option<JsonValue>)
    ensures
        r is None <==> tdx_type_chosen(
            match form_type {
                Some(v) => Some(jview(*v)),
                None => None,
            },
        ),
        r matches Some(v) ==> jview(v) == tdx_removal_spec(),
{
    let chosen = match form_type {
        Some(JsonValue::Str(s)) => str_chars(s.as_str()).len() > 0,
        _ => false,
    };
    if chosen {
        None
    } else {
        let list = vec![JsonValue::Str(INTEL_TDX_KEY.to_string())];
        let e = vec![("delete".to_string(), JsonValue::Array(list))];
        proof {
            crate::json::lemma_jviews(list@);
            crate::json::lemma_jentries(e@);
            assert(crate::json::jviews(list@) =~= seq![Json::Str(INTEL_TDX_KEY@)]);
            assert(jentries(e@) =~= tdx_removal_spec()->Object_0);
        }
        Some(JsonValue::Object(e))
    }
}

/// What the storage reports of its image formats: the supported formats and the default.
pub struct StorageFormats {
    pub supported: Vec<DiskFormat>,
    pub default: DiskFormat,
}

/// How the EFI disk panel is laid out for the chosen storage.
pub struct EfidiskLayout {
    /// The formats offered.
    pub supported: Vec<DiskFormat>,
    /// The format selected at first.
    pub default: DiskFormat,
    /// Whether an existing image is picked (the storage only offers existing volumes), in
    /// place of choosing a format.
    pub select_existing: bool,
    /// Whether the format selector is disabled: there is no real choice.
    pub format_disabled: bool,
    /// Whether the warning that the machine does not boot with OVMF is shown.
    pub bios_hint: bool,
}

/// Whether a guest configuration boots with OVMF (UEFI): its `bios` is `"ovmf"`. A missing,
/// `null` or other value means SeaBIOS.
pub fn bios_is_ovmf(record: &JsonValue) -> (r: bool)
    ensures
        r == (index_key(jview(*record), "bios"@) == Json::Str("ovmf"@)),
{
    index_is_str(record, "bios", "ovmf")
}

/// Whether the BIOS editor warns that an EFI disk is needed: OVMF is selected and the
/// configuration has no `efidisk0`.
pub fn efi_disk_hint_shown(bios_field: &str, record: &JsonValue) -> (r: bool)
    ensures
        r == (bios_field@ == "ovmf"@ && index_key(jview(*record), "efidisk0"@) == Json::Null),
{
    let f = str_chars(bios_field);
    let o = str_chars("ovmf");
    chars_eq(f.as_slice(), o.as_slice()) && index_is_null(record, "efidisk0")
}

/// The EFI disk panel for the chosen storage: its formats (raw only when the storage does
/// not report any), whether an existing image is picked, whether the format selector is
/// disabled (one format or none), and whether the OVMF warning shows.
pub fn efidisk_layout(formats: Option<&StorageFormats>, select_existing: Option<bool>, bios_is_ovmf: bool) -> (r:
    EfidiskLayout)
    ensures
        match formats {
            Some(f) => r.supported@ == f.supported@ && r.default == f.default,
            None => r.supported@ == seq![DiskFormat::Raw] && r.default == DiskFormat::Raw,
        },
        r.select_existing == match (formats, select_existing) {
            (Some(_), Some(b)) => b,
            _ => false,
        },
        r.format_disabled == (r.supported@.len() <= 1),
        r.bios_hint == !bios_is_ovmf,
{
    let (supported, default, existing) = match formats {
        Some(f) => {
            let mut v: Vec<DiskFormat> = Vec::new();
            let mut i: usize = 0;
            while i < f.supported.len()
                invariant
                    i <= f.supported.len(),
                    v@ == f.supported@.take(i as int),
                decreases f.supported.len() - i,
            {
                v.push(f.supported[i]);
                i = i + 1;
                assert(v@ =~= f.supported@.take(i as int));
            }
            assert(f.supported@.take(f.supported.len() as int) =~= f.supported@);
            let e = match select_existing {
                Some(b) => b,
                None => false,
            };
            (v, f.default, e)
        },
        None => (vec![DiskFormat::Raw], DiskFormat::Raw, false),
    };
    let format_disabled = supported.len() <= 1;
    EfidiskLayout { supported, default, select_existing: existing, format_disabled, bios_hint: !bios_is_ovmf }
}

} // verus!

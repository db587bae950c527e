//! Disks and the static description of the host shown in the "system" panel.

use vstd::prelude::*;
use vstd::string::*;
use crate::monitor::device_name;
use crate::names::texts;
use crate::text::{joined, join_strings, labelled, trim_text, trimmed};

verus! {

/// Holds data for a disk.
pub struct DiskData {
    pub name: String,
    pub mount_point: String,
    pub total_space_bytes: u64,
    pub available_space_bytes: u64,
}

/// The total space of all the disks, in bytes.
pub open spec fn disk_total(disks: Seq<DiskData>) -> nat
    decreases disks.len(),
{
    if disks.len() == 0 {
        0
    } else {
        disk_total(disks.drop_last()) + disks.last().total_space_bytes as nat
    }
}

/// The summed total space of the disks, or `None` where the sum does not fit in a `u64`.
pub fn total_storage_bytes(disks: &Vec<DiskData>) -> (total: Option<u64>)
    ensures
        total == (if disk_total(disks@) <= u64::MAX {
            Some(disk_total(disks@) as u64)
        } else {
            None::<u64>
        }),
{
    let mut sum: u64 = 0;
    let mut k: usize = 0;
    while k < disks.len()
        invariant
            k <= disks@.len(),
            sum == disk_total(disks@.take(k as int)),
        decreases disks@.len() - k,
    {
        assert(disks@.take(k + 1).drop_last() =~= disks@.take(k as int));
        let add = disks[k].total_space_bytes;
        if add > u64::MAX - sum {
            proof {
                lemma_disk_total_prefix(disks@, k + 1);
            }
            return None;
        }
        sum = sum + add;
        k = k + 1;
    }
    assert(disks@.take(disks@.len() as int) =~= disks@);
    Some(sum)
}

/// The total of a prefix never exceeds the total of the whole list.
proof fn lemma_disk_total_prefix(disks: Seq<DiskData>, k: int)
    requires
        0 <= k <= disks.len(),
    ensures
        disk_total(disks.take(k)) <= disk_total(disks),
    decreases disks.len() - k,
{
    if k < disks.len() {
        lemma_disk_total_prefix(disks, k + 1);
        assert(disks.take(k + 1).drop_last() =~= disks.take(k));
    } else {
        assert(disks.take(k) =~= disks);
    }
}

/// What is read about the host; `None` where a value could not be read. The memory
/// and storage totals come already formatted.
pub struct HostFacts {
    pub hostname: Option<String>,
    pub os_name: Option<String>,
    pub os_version: Option<String>,
    pub kernel_version: Option<String>,
    /// The brand of the first CPU, where there is one.
    pub cpu_brand: Option<String>,
    pub total_memory_text: String,
    /// The contents of the BIOS version file, where it could be read.
    pub bios_version: Option<String>,
    pub total_storage_text: String,
    /// The GPUs that could be opened: device index and, where readable, name.
    pub gpus: Vec<(u32, Option<String>)>,
}

/// `Unknown`, shown for a value that could not be read.
pub open spec fn unknown_text() -> Seq<char> {
    seq!['U', 'n', 'k', 'n', 'o', 'w', 'n']
}

/// `NVIDIA GPU `, the start of the name given to a GPU whose name cannot be read.
pub open spec fn nvidia_fallback_prefix() -> Seq<char> {
    seq!['N', 'V', 'I', 'D', 'I', 'A', ' ', 'G', 'P', 'U', ' ']
}

/// The text of a value that was read, or `fallback`.
pub open spec fn text_or(value: Option<String>, fallback: Seq<char>) -> Seq<char> {
    match value {
        Some(v) => v@,
        None => fallback,
    }
}

/// The GPU names, each read or made up from its index, joined by `, `.
pub open spec fn gpu_names_text(gpus: Seq<(u32, Option<String>)>) -> Seq<char> {
    joined(
        Seq::new(gpus.len(), |i: int| device_name(gpus[i].1, gpus[i].0, nvidia_fallback_prefix())),
        seq![',', ' '],
    )
}

fn string_or(value: &Option<String>, fallback: &str) -> (s: String)
    ensures
        s@ == text_or(*value, fallback@),
{
    match value {
        Some(v) => v.clone(),
        None => String::from_str(fallback),
    }
}

/// The host description for `cores` cores, from what was read: host name,
/// `<OS name> <OS version>`, kernel version, CPU brand, core count, total memory,
/// BIOS version (trimmed of surrounding white space), total storage and GPU names.
/// A value that could not be read shows as `Unknown`; an unreadable OS version or
/// CPU brand shows as empty.
pub open spec fn describes_host(
    info: (String, String, String, String, usize, String, String, String, String),
    facts: HostFacts,
    cores: nat,
) -> bool {
    &&& info.0@ == text_or(facts.hostname, unknown_text())
    &&& info.1@ == text_or(facts.os_name, unknown_text()) + seq![' '] + text_or(
        facts.os_version,
        Seq::empty(),
    )
    &&& info.2@ == text_or(facts.kernel_version, unknown_text())
    &&& info.3@ == text_or(facts.cpu_brand, Seq::empty())
    &&& info.4 == cores
    &&& info.5@ == facts.total_memory_text@
    &&& info.6@ == match facts.bios_version {
        Some(v) => trimmed(v@),
        None => unknown_text(),
    }
    &&& info.7@ == facts.total_storage_text@
    &&& info.8@ == gpu_names_text(facts.gpus@)
}

/// Builds the host description for `cores` cores from what was read.
pub fn describe_host(facts: &HostFacts, cores: usize) -> (info: (
    String,
    String,
    String,
    String,
    usize,
    String,
    String,
    String,
    String,
))
    ensures
        describes_host(info, *facts, cores as nat),
{
    let unknown = "Unknown";
    let empty = "";
    let space = " ";
    let nvidia = "NVIDIA GPU ";
    let comma = ", ";
    proof {
        reveal_strlit("Unknown");
        reveal_strlit("");
        reveal_strlit(" ");
        reveal_strlit("NVIDIA GPU ");
        reveal_strlit(", ");
        assert(unknown@ =~= unknown_text());
        assert(empty@ =~= Seq::<char>::empty());
        assert(space@ =~= seq![' ']);
        assert(nvidia@ =~= nvidia_fallback_prefix());
        assert(comma@ =~= seq![',', ' ']);
    }
    let hostname = string_or(&facts.hostname, unknown);
    let mut os = string_or(&facts.os_name, unknown);
    os.append(space);
    let os_version = string_or(&facts.os_version, empty);
    os.append(os_version.as_str());
    let kernel = string_or(&facts.kernel_version, unknown);
    let cpu_brand = string_or(&facts.cpu_brand, empty);
    let bios = match &facts.bios_version {
        Some(v) => trim_text(v.as_str()),
        None => String::from_str(unknown),
    };

    let mut names: Vec<String> = Vec::new();
    let mut k: usize = 0;
    while k < facts.gpus.len()
        invariant
            k <= facts.gpus@.len(),
            names@.len() == k,
            nvidia@ == nvidia_fallback_prefix(),
            texts(names@) == Seq::new(
                k as nat,
                |i: int| device_name(facts.gpus@[i].1, facts.gpus@[i].0, nvidia_fallback_prefix()),
            ),
        decreases facts.gpus@.len() - k,
    {
        let name = match &facts.gpus[k].1 {
            Some(n) => n.clone(),
            None => labelled(nvidia, facts.gpus[k].0 as u64),
        };
        assert(name@ == device_name(facts.gpus@[k as int].1, facts.gpus@[k as int].0, nvidia_fallback_prefix()));
        let ghost prev = names@;
        names.push(name);
        k = k + 1;
        assert forall|i: int| 0 <= i < k implies #[trigger] texts(names@)[i] == device_name(
            facts.gpus@[i].1,
            facts.gpus@[i].0,
            nvidia_fallback_prefix(),
        ) by {
            if i < k - 1 {
                assert(names@[i] == prev[i]);
                assert(texts(prev)[i] == prev[i]@);
            }
        }
        assert(texts(names@) =~= Seq::new(
            k as nat,
            |i: int| device_name(facts.gpus@[i].1, facts.gpus@[i].0, nvidia_fallback_prefix()),
        ));
    }
    let gpu_str = join_strings(&names, comma);
    (
        hostname,
        os,
        kernel,
        cpu_brand,
        cores,
        facts.total_memory_text.clone(),
        bios,
        facts.total_storage_text.clone(),
        gpu_str,
    )
}


/// No disks hold nothing, and one more disk adds its total space.
pub proof fn lemma_disk_total(disks: Seq<DiskData>, d: DiskData)
    ensures
        disk_total(Seq::<DiskData>::empty()) == 0,
        disk_total(disks.push(d)) == disk_total(disks) + d.total_space_bytes,
{
    assert(disks.push(d).drop_last() =~= disks);
}

/// No GPUs give empty text; one GPU gives its name; one more GPU adds `, ` and its
/// name (the name read, or `NVIDIA GPU <index>`).
pub proof fn lemma_gpu_names_text(gpus: Seq<(u32, Option<String>)>, g: (u32, Option<String>))
    ensures
        gpu_names_text(Seq::<(u32, Option<String>)>::empty()) == Seq::<char>::empty(),
        gpu_names_text(seq![g]) == device_name(g.1, g.0, nvidia_fallback_prefix()),
        gpus.len() >= 1 ==> gpu_names_text(gpus.push(g)) == gpu_names_text(gpus) + seq![',', ' ']
            + device_name(g.1, g.0, nvidia_fallback_prefix()),
        g.1 is None ==> device_name(g.1, g.0, nvidia_fallback_prefix()) == seq![
            'N',
            'V',
            'I',
            'D',
            'I',
            'A',
            ' ',
            'G',
            'P',
            'U',
            ' ',
        ] + crate::text::decimal_text(g.0 as nat),
{
    let names = Seq::new(gpus.len(), |i: int| device_name(gpus[i].1, gpus[i].0, nvidia_fallback_prefix()));
    let names2 = Seq::new(
        gpus.push(g).len(),
        |i: int| device_name(gpus.push(g)[i].1, gpus.push(g)[i].0, nvidia_fallback_prefix()),
    );
    assert(names2 =~= names.push(device_name(g.1, g.0, nvidia_fallback_prefix())));
    crate::text::lemma_joined(names, seq![',', ' '], device_name(g.1, g.0, nvidia_fallback_prefix()));
    let one = Seq::new(1nat, |i: int| device_name(seq![g][i].1, seq![g][i].0, nvidia_fallback_prefix()));
    assert(one =~= seq![device_name(g.1, g.0, nvidia_fallback_prefix())]);
    crate::text::lemma_joined(one, seq![',', ' '], device_name(g.1, g.0, nvidia_fallback_prefix()));
    let none = Seq::new(0nat, |i: int| device_name(Seq::<(u32, Option<String>)>::empty()[i].1, Seq::<(u32, Option<String>)>::empty()[i].0, nvidia_fallback_prefix()));
    assert(none =~= Seq::<Seq<char>>::empty());
}

} // verus!

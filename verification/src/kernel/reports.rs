//! What the kernel tells of the machine: its CPUs, its devices, its memory nodes.

use vstd::prelude::*;
use vstd::string::*;
use crate::bytes;
use crate::text;

verus! {

/// What a device is for.
#[derive(Copy, Clone, PartialEq, Eq, Debug, Structural)]
pub enum EngineKind {
    Display,
    Gpu,
    Nic,
    Storage,
    Nvme,
    Accelerator,
    Bridge,
    Other,
}

/// A device on the bus.
#[derive(Copy, Clone, PartialEq, Eq, Debug, Structural)]
pub struct PciDevice {
    pub bus: u8,
    pub dev: u8,
    pub func: u8,
    pub vendor: u16,
    pub device: u16,
    pub engine: EngineKind,
}

/// What the boot has found.
pub struct Inventory {
    /// The name of the CPU's maker, with zeros after it.
    pub vendor: Vec<u8>,
    /// The features of the CPU, a bit for each.
    pub features: u64,
    /// The names of the features, from that of the lowest bit on.
    pub feature_names: Vec<&'static str>,
    /// The memory node of each CPU.
    pub cpu_nodes: Vec<u8>,
    pub pci: Vec<PciDevice>,
    /// Bytes of memory of each node.
    pub node_ram: Vec<u64>,
}

impl Inventory {
    /// There is a bit for every feature that has a name.
    pub open spec fn wf(&self) -> bool {
        self.feature_names@.len() <= 64
    }
}

/// The names of the features that the CPU has, each after a space.
pub open spec fn feature_list(bits: u64, names: Seq<&'static str>, n: int) -> Seq<u8>
    decreases n,
{
    if n <= 0 {
        Seq::empty()
    } else {
        feature_list(bits, names, n - 1) + (if bits & (1u64 << (n - 1)) != 0 {
            seq![32u8] + names[n - 1].spec_bytes()
        } else {
            Seq::empty()
        })
    }
}

/// The report on the CPUs.
pub open spec fn cpuinfo_text(inv: &Inventory) -> Seq<u8> {
    "cpu vendor: ".spec_bytes() + bytes::until_zero(inv.vendor@, 0) + "\r\ncpu cores: ".spec_bytes()
        + text::decimal(inv.cpu_nodes@.len()) + "\r\ncpu features:".spec_bytes() + feature_list(
        inv.features,
        inv.feature_names@,
        inv.feature_names@.len() as int,
    ) + "\r\n".spec_bytes()
}

/// Report on the CPUs.
pub fn print_cpuinfo(inv: &Inventory) -> (out: Vec<u8>)
    requires
        inv.wf(),
    ensures
        out@ == cpuinfo_text(inv),
{
    let mut out: Vec<u8> = Vec::new();
    text::put_str(&mut out, "cpu vendor: ");
    let vendor: Vec<u8> = bytes::read_until_zero(inv.vendor.as_slice(), 0);
    text::put_bytes(&mut out, vendor.as_slice());
    text::put_str(&mut out, "\r\ncpu cores: ");
    text::put_u64(&mut out, inv.cpu_nodes.len() as u64);
    text::put_str(&mut out, "\r\ncpu features:");
    let ghost s2 = out@;
    let mut k: usize = 0;
    while k < inv.feature_names.len()
        invariant
            k <= inv.feature_names@.len() <= 64,
            out@ =~= s2 + feature_list(inv.features, inv.feature_names@, k as int),
        decreases inv.feature_names@.len() - k,
    {
        if inv.features & (1u64 << k) != 0 {
            out.push(32);
            text::put_str(&mut out, inv.feature_names[k]);
        }
        k = k + 1;
    }
    text::put_str(&mut out, "\r\n");
    assert(out@ =~= cpuinfo_text(inv));
    out
}

/// The word for what a device is for.
pub open spec fn label_of(k: EngineKind) -> Seq<u8> {
    match k {
        EngineKind::Display => "display".spec_bytes(),
        EngineKind::Gpu => "gpu".spec_bytes(),
        EngineKind::Nic => "nic".spec_bytes(),
        EngineKind::Storage => "storage".spec_bytes(),
        EngineKind::Nvme => "nvme".spec_bytes(),
        EngineKind::Accelerator => "accelerator".spec_bytes(),
        EngineKind::Bridge => "bridge".spec_bytes(),
        EngineKind::Other => "other".spec_bytes(),
    }
}

/// The word for what a device is for.
pub fn engine_label(k: EngineKind) -> (s: &'static str)
    ensures
        s.spec_bytes() == label_of(k),
{
    match k {
        EngineKind::Display => "display",
        EngineKind::Gpu => "gpu",
        EngineKind::Nic => "nic",
        EngineKind::Storage => "storage",
        EngineKind::Nvme => "nvme",
        EngineKind::Accelerator => "accelerator",
        EngineKind::Bridge => "bridge",
        EngineKind::Other => "other",
    }
}

/// A number in hexadecimal with a fixed count of digits.
pub open spec fn hex_field(v: nat, digits: nat) -> Seq<u8> {
    seq![48u8, 120u8] + text::hex_pad(v, digits)
}

/// The line for a device.
pub open spec fn device_line(d: PciDevice) -> Seq<u8> {
    hex_field(d.bus as nat, 2) + seq![58u8] + hex_field(d.dev as nat, 2) + seq![46u8]
        + text::decimal(d.func as nat) + seq![32u8] + hex_field(d.vendor as nat, 4) + seq![58u8]
        + hex_field(d.device as nat, 4) + " -> ".spec_bytes() + label_of(d.engine)
        + "\r\n".spec_bytes()
}

/// The lines for the first `n` devices.
pub open spec fn device_lines(pci: Seq<PciDevice>, n: int) -> Seq<u8>
    decreases n,
{
    if n <= 0 {
        Seq::empty()
    } else {
        device_lines(pci, n - 1) + device_line(pci[n - 1])
    }
}

fn put_device(out: &mut Vec<u8>, d: PciDevice)
    ensures
        final(out)@ == old(out)@ + device_line(d),
{
    text::put_hex_pad(out, d.bus as u64, 2);
    out.push(58);
    text::put_hex_pad(out, d.dev as u64, 2);
    out.push(46);
    text::put_u64(out, d.func as u64);
    out.push(32);
    text::put_hex_pad(out, d.vendor as u64, 4);
    out.push(58);
    text::put_hex_pad(out, d.device as u64, 4);
    text::put_str(out, " -> ");
    text::put_str(out, engine_label(d.engine));
    text::put_str(out, "\r\n");
    assert(out@ =~= old(out)@ + device_line(d));
}

/// Report on the devices.
pub fn print_lspci(inv: &Inventory) -> (out: Vec<u8>)
    ensures
        out@ == (if inv.pci@.len() == 0 {
            "no pci devices\r\n".spec_bytes()
        } else {
            device_lines(inv.pci@, inv.pci@.len() as int)
        }),
{
    let mut out: Vec<u8> = Vec::new();
    if inv.pci.len() == 0 {
        text::put_str(&mut out, "no pci devices\r\n");
        assert(out@ =~= "no pci devices\r\n".spec_bytes());
        return out;
    }
    let mut i: usize = 0;
    while i < inv.pci.len()
        invariant
            i <= inv.pci@.len(),
            out@ =~= device_lines(inv.pci@, i as int),
        decreases inv.pci@.len() - i,
    {
        put_device(&mut out, inv.pci[i]);
        i = i + 1;
    }
    out
}

/// How many of the first `n` CPUs are on a node.
pub open spec fn cpus_on(nodes: Seq<u8>, node: int, n: int) -> nat
    decreases n,
{
    if n <= 0 {
        0
    } else {
        cpus_on(nodes, node, n - 1) + (if nodes[n - 1] == node {
            1nat
        } else {
            0
        })
    }
}

/// The line for a node.
pub open spec fn node_line(inv: &Inventory, node: int) -> Seq<u8> {
    "node ".spec_bytes() + text::decimal(node as nat) + ": ram ".spec_bytes() + text::decimal(
        (inv.node_ram@[node] / 1048576) as nat,
    ) + " MiB, cpus ".spec_bytes() + text::decimal(
        cpus_on(inv.cpu_nodes@, node, inv.cpu_nodes@.len() as int),
    ) + "\r\n".spec_bytes()
}

/// The lines for the first `n` nodes.
pub open spec fn node_lines(inv: &Inventory, n: int) -> Seq<u8>
    decreases n,
{
    if n <= 0 {
        Seq::empty()
    } else {
        node_lines(inv, n - 1) + node_line(inv, n - 1)
    }
}

fn count_cpus(inv: &Inventory, node: usize) -> (c: usize)
    ensures
        c == cpus_on(inv.cpu_nodes@, node as int, inv.cpu_nodes@.len() as int),
{
    let mut c: usize = 0;
    let mut i: usize = 0;
    while i < inv.cpu_nodes.len()
        invariant
            i <= inv.cpu_nodes@.len(),
            c <= i,
            c == cpus_on(inv.cpu_nodes@, node as int, i as int),
        decreases inv.cpu_nodes@.len() - i,
    {
        if inv.cpu_nodes[i] as usize == node {
            c = c + 1;
        }
        i = i + 1;
    }
    c
}

/// Report on the memory nodes.
pub fn print_numa(inv: &Inventory) -> (out: Vec<u8>)
    ensures
        out@ == "numa nodes: ".spec_bytes() + text::decimal(inv.node_ram@.len())
            + "\r\n".spec_bytes() + node_lines(inv, inv.node_ram@.len() as int),
{
    let mut out: Vec<u8> = Vec::new();
    text::put_str(&mut out, "numa nodes: ");
    text::put_u64(&mut out, inv.node_ram.len() as u64);
    text::put_str(&mut out, "\r\n");
    let ghost head = out@;
    let mut i: usize = 0;
    while i < inv.node_ram.len()
        invariant
            i <= inv.node_ram@.len(),
            out@ =~= head + node_lines(inv, i as int),
        decreases inv.node_ram@.len() - i,
    {
        let ghost before = out@;
        text::put_str(&mut out, "node ");
        text::put_u64(&mut out, i as u64);
        text::put_str(&mut out, ": ram ");
        text::put_u64(&mut out, inv.node_ram[i] / 1048576);
        text::put_str(&mut out, " MiB, cpus ");
        text::put_u64(&mut out, count_cpus(inv, i) as u64);
        text::put_str(&mut out, "\r\n");
        assert(out@ =~= before + node_line(inv, i as int));
        i = i + 1;
    }
    assert(head =~= "numa nodes: ".spec_bytes() + text::decimal(inv.node_ram@.len())
        + "\r\n".spec_bytes());
    out
}

/// The CPUs of a node are those on it: none exactly where no CPU is on it, and all exactly
/// where each is.
pub proof fn law_cpus_are_counted_by_node(nodes: Seq<u8>, node: int, n: int)
    requires
        0 <= n <= nodes.len(),
    ensures
        cpus_on(nodes, node, n) <= n,
        cpus_on(nodes, node, n) == 0 <==> forall|i: int| 0 <= i < n ==> #[trigger] nodes[i] != node,
        cpus_on(nodes, node, n) == n <==> forall|i: int| 0 <= i < n ==> #[trigger] nodes[i] == node,
    decreases n,
{
    if n > 0 {
        law_cpus_are_counted_by_node(nodes, node, n - 1);
        assert(nodes[n - 1] == nodes[n - 1]);
    }
}

/// Only the features that the CPU has are listed: one whose bit is clear adds nothing to the
/// list, and one whose bit is set adds a space and its name.
pub proof fn law_listed_features_are_set(bits: u64, names: Seq<&'static str>, n: int)
    requires
        0 < n <= names.len(),
        n <= 64,
    ensures
        bits & (1u64 << (n - 1)) == 0 ==> feature_list(bits, names, n) == feature_list(bits, names, n - 1),
        bits & (1u64 << (n - 1)) != 0 ==> feature_list(bits, names, n) == feature_list(bits, names, n - 1)
            + seq![32u8] + names[n - 1].spec_bytes(),
        bits == 0 ==> feature_list(bits, names, n) == feature_list(bits, names, n - 1),
{
    let k = (n - 1) as u64;
    assert(0u64 & (1u64 << k) == 0) by (bit_vector);
    if bits & (1u64 << (n - 1)) != 0 {
        assert(feature_list(bits, names, n) =~= feature_list(bits, names, n - 1) + seq![32u8]
            + names[n - 1].spec_bytes());
    } else {
        assert(feature_list(bits, names, n) =~= feature_list(bits, names, n - 1));
    }
}

} // verus!

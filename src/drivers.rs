//! Driver framework: matching device-tree nodes to drivers, the interrupts
//! they declare, and the per-interrupt handler registry
use vstd::prelude::*;
use crate::cpu::InterruptId;
use crate::errors::{KernelError, KernelResult};
use crate::line_edit::{string_from_utf8, first_char, lead_width, lemma_single_char, char_bytes};
use vstd::utf8::{valid_utf8, decode_utf8};

verus! {

/// The capability a driver provides
#[derive(Copy, Clone, Debug, PartialEq, Eq, Structural)]
pub enum DriverKind {
    Uart,
    Timer,
    InterruptController,
}

/// A loader: a device-tree `compatible` string and the kind of driver it makes
pub struct DriverLoader {
    pub compatible: String,
    pub kind: DriverKind,
}

/// What a loaded driver declares about its interrupts
pub struct DriverInfo {
    /// Phandle of the interrupt controller its interrupts go to
    pub interrupt_parent: Option<u32>,
    pub interrupts: Vec<InterruptId>,
}

/// A device-tree node, as read from the flattened tree
pub struct DeviceNode {
    pub name: String,
    pub compatible: Vec<String>,
    pub interrupt_parent: Option<usize>,
    pub interrupts: Vec<usize>,
}

/// Does one of the node's compatible strings equal `compatible`?
pub fn matches_compatible(node_compatible: &Vec<String>, compatible: &String) -> (r: bool)
    ensures
        r == exists|i: int| 0 <= i < node_compatible@.len() && (#[trigger] node_compatible@[i])@ == compatible@,
{
    let mut i: usize = 0;
    while i < node_compatible.len()
        invariant
            i <= node_compatible@.len(),
            forall|k: int| 0 <= k < i ==> (#[trigger] node_compatible@[k])@ != compatible@,
        decreases node_compatible@.len() - i,
    {
        if node_compatible[i] == *compatible {
            return true;
        }
        i = i + 1;
    }
    false
}

/// The interrupt information of a node: the parent phandle and each interrupt
/// must fit in 32 bits
pub fn driver_info(node: &DeviceNode) -> (r: KernelResult<DriverInfo>)
    ensures
        r.is_ok() <==> (node.interrupt_parent is None || node.interrupt_parent.unwrap() <= u32::MAX) && forall|i: int|
            0 <= i < node.interrupts@.len() ==> #[trigger] node.interrupts@[i] <= u32::MAX,
        r.is_ok() ==> ({
            let info = r.unwrap();
            &&& info.interrupt_parent == (match node.interrupt_parent {
                Some(p) => Some(p as u32),
                None => None,
            })
            &&& info.interrupts@.len() == node.interrupts@.len()
            &&& forall|i: int| 0 <= i < node.interrupts@.len() ==> #[trigger] info.interrupts@[i].id == node.interrupts@[i]
        }),
{
    let interrupt_parent = match node.interrupt_parent {
        Some(p) => {
            if p > u32::MAX as usize {
                return Err(KernelError::InvalidArguments);
            }
            Some(p as u32)
        },
        None => None,
    };
    let mut interrupts: Vec<InterruptId> = Vec::new();
    let mut i: usize = 0;
    while i < node.interrupts.len()
        invariant
            i <= node.interrupts@.len(),
            interrupts@.len() == i,
            forall|k: int| 0 <= k < i ==> #[trigger] interrupts@[k].id == node.interrupts@[k],
            forall|k: int| 0 <= k < i ==> #[trigger] node.interrupts@[k] <= u32::MAX,
        decreases node.interrupts@.len() - i,
    {
        let id = node.interrupts[i];
        if id > u32::MAX as usize {
            return Err(KernelError::InvalidIntId(id));
        }
        interrupts.push(InterruptId { id: id as u32 });
        i = i + 1;
    }
    Ok(DriverInfo { interrupt_parent, interrupts })
}

/// One of the node's compatible strings is the loader's
pub open spec fn node_matches(node: &DeviceNode, loader: &DriverLoader) -> bool {
    exists|i: int| 0 <= i < node.compatible@.len() && (#[trigger] node.compatible@[i])@ == loader.compatible@
}

/// The first loader that matches the node, if any
pub fn pick_loader(loaders: &Vec<DriverLoader>, node: &DeviceNode) -> (r: Option<usize>)
    ensures
        r.is_some() ==> r.unwrap() < loaders@.len() && node_matches(node, &loaders@[r.unwrap() as int]),
        r.is_some() ==> forall|l: int| 0 <= l < r.unwrap() ==> !node_matches(node, #[trigger] &loaders@[l]),
        r.is_none() ==> forall|l: int| 0 <= l < loaders@.len() ==> !node_matches(node, #[trigger] &loaders@[l]),
{
    let mut l: usize = 0;
    while l < loaders.len()
        invariant
            l <= loaders@.len(),
            forall|m: int| 0 <= m < l ==> !node_matches(node, #[trigger] &loaders@[m]),
        decreases loaders@.len() - l,
    {
        if matches_compatible(&node.compatible, &loaders[l].compatible) {
            return Some(l);
        }
        l = l + 1;
    }
    None
}

/// The interrupts to enable at the interrupt controller with phandle
/// `ic_phandle`: those whose parent is that controller, in order
pub fn interrupts_to_enable(registrations: &Vec<(u32, InterruptId)>, ic_phandle: u32) -> (r: Vec<InterruptId>)
    ensures
        r@ == registrations@.filter(|x: (u32, InterruptId)| x.0 == ic_phandle).map_values(|x: (u32, InterruptId)| x.1),
{
    let mut out: Vec<InterruptId> = Vec::new();
    let mut i: usize = 0;
    while i < registrations.len()
        invariant
            i <= registrations@.len(),
            out@ == registrations@.subrange(0, i as int).filter(|x: (u32, InterruptId)| x.0 == ic_phandle).map_values(
                |x: (u32, InterruptId)| x.1,
            ),
        decreases registrations@.len() - i,
    {
        let reg = registrations[i];
        proof {
            let s = registrations@.subrange(0, i + 1);
            assert(s.drop_last() =~= registrations@.subrange(0, i as int));
            reveal_with_fuel(Seq::filter, 1);
            assert(s.last() == reg);
        }
        if reg.0 == ic_phandle {
            out.push(reg.1);
            assert(out@ =~= registrations@.subrange(0, i + 1).filter(|x: (u32, InterruptId)| x.0 == ic_phandle).map_values(
                |x: (u32, InterruptId)| x.1,
            ));
        } else {
            assert(out@ =~= registrations@.subrange(0, i + 1).filter(|x: (u32, InterruptId)| x.0 == ic_phandle).map_values(
                |x: (u32, InterruptId)| x.1,
            ));
        }
        i = i + 1;
    }
    assert(registrations@.subrange(0, registrations@.len() as int) =~= registrations@);
    out
}

/// Which driver each device-tree node gets, and the interrupts they declare
pub struct DriverPlan {
    /// Node index and loader index of each driver to load, in load order
    pub loads: Vec<(usize, usize)>,
    /// Interrupt-controller phandle and interrupt of each declared interrupt
    pub registrations: Vec<(u32, InterruptId)>,
}

fn contains_name(names: &Vec<String>, name: &String) -> (r: bool)
    ensures
        r == exists|i: int| 0 <= i < names@.len() && (#[trigger] names@[i])@ == name@,
{
    matches_compatible(names, name)
}

/// Every load pairs a node with a loader that matches it
pub open spec fn plan_matches(plan: &DriverPlan, loaders: Seq<DriverLoader>, nodes: Seq<DeviceNode>) -> bool {
    forall|k: int|
        0 <= k < plan.loads@.len() ==> {
            let (n, l) = #[trigger] plan.loads@[k];
            &&& n < nodes.len()
            &&& l < loaders.len()
            &&& node_matches(&nodes[n as int], &loaders[l as int])
        }
}

/// The plan's loads are matches and load each node name at most once;
/// `picked` holds the loaded names
pub open spec fn plan_wf(plan: &DriverPlan, picked: Seq<String>, loaders: Seq<DriverLoader>, nodes: Seq<DeviceNode>) -> bool {
    &&& plan_matches(plan, loaders, nodes)
    &&& picked.len() == plan.loads@.len()
    &&& forall|k: int| 0 <= k < plan.loads@.len() ==> (#[trigger] picked[k])@ == nodes[plan.loads@[k].0 as int].name@
    &&& forall|a: int, b: int|
        0 <= a < b < plan.loads@.len() ==> nodes[(#[trigger] plan.loads@[a]).0 as int].name@
            != nodes[(#[trigger] plan.loads@[b]).0 as int].name@
}

/// `l` is the first loader that matches the node
pub open spec fn is_first_loader(loaders: Seq<DriverLoader>, node: &DeviceNode, l: int) -> bool {
    &&& 0 <= l < loaders.len()
    &&& node_matches(node, &loaders[l])
    &&& forall|m: int| 0 <= m < l ==> !node_matches(node, #[trigger] &loaders[m])
}

/// The first loader that matches the node, if any
pub open spec fn first_loader(loaders: Seq<DriverLoader>, node: &DeviceNode) -> Option<int> {
    if exists|l: int| is_first_loader(loaders, node, l) {
        Some(choose|l: int| is_first_loader(loaders, node, l))
    } else {
        None
    }
}

/// The node's interrupt information fits in 32 bits
pub open spec fn info_ok(node: &DeviceNode) -> bool {
    &&& (node.interrupt_parent is None || node.interrupt_parent.unwrap() <= u32::MAX)
    &&& forall|i: int| 0 <= i < node.interrupts@.len() ==> #[trigger] node.interrupts@[i] <= u32::MAX
}

/// The interrupt registrations a loaded node declares
pub open spec fn node_registrations(node: &DeviceNode) -> Seq<(u32, InterruptId)> {
    match node.interrupt_parent {
        Some(p) => Seq::new(node.interrupts@.len(), |k: int| (p as u32, InterruptId { id: node.interrupts@[k] as u32 })),
        None => Seq::empty(),
    }
}

/// Loads and registrations after visiting node `idx`: a node whose name is
/// already loaded is skipped; otherwise its first matching loader, if any,
/// loads it and its interrupts are registered
pub open spec fn plan_step(
    loaders: Seq<DriverLoader>,
    nodes: Seq<DeviceNode>,
    loads: Seq<(usize, usize)>,
    regs: Seq<(u32, InterruptId)>,
    idx: int,
) -> (Seq<(usize, usize)>, Seq<(u32, InterruptId)>) {
    if exists|k: int| 0 <= k < loads.len() && nodes[(#[trigger] loads[k]).0 as int].name@ == nodes[idx].name@ {
        (loads, regs)
    } else {
        match first_loader(loaders, &nodes[idx]) {
            Some(l) => (loads.push((idx as usize, l as usize)), regs + node_registrations(&nodes[idx])),
            None => (loads, regs),
        }
    }
}

/// Loads and registrations after visiting the nodes of `order` in turn
pub open spec fn plan_after(loaders: Seq<DriverLoader>, nodes: Seq<DeviceNode>, order: Seq<int>) -> (
    Seq<(usize, usize)>,
    Seq<(u32, InterruptId)>,
)
    decreases order.len(),
{
    if order.len() == 0 {
        (Seq::empty(), Seq::empty())
    } else {
        let prev = plan_after(loaders, nodes, order.drop_last());
        plan_step(loaders, nodes, prev.0, prev.1, order.last())
    }
}

/// The order in which nodes are visited: the standard-output node, then all
pub open spec fn visit_order(n: nat, stdout: Option<usize>) -> Seq<int> {
    let first = match stdout {
        Some(i) => if i < n { seq![i as int] } else { Seq::empty() },
        None => Seq::empty(),
    };
    first + Seq::new(n, |k: int| k)
}

fn visit_node(plan: &mut DriverPlan, picked: &mut Vec<String>, loaders: &Vec<DriverLoader>, nodes: &Vec<DeviceNode>, index: usize) -> (r: KernelResult<()>)
    requires
        index < nodes@.len(),
        plan_wf(old(plan), old(picked)@, loaders@, nodes@),
    ensures
        plan_wf(final(plan), final(picked)@, loaders@, nodes@),
        r.is_ok() ==> (final(plan).loads@, final(plan).registrations@) == plan_step(
            loaders@,
            nodes@,
            old(plan).loads@,
            old(plan).registrations@,
            index as int,
        ),
        info_ok(&nodes@[index as int]) ==> r.is_ok(),
{
    let node = &nodes[index];
    let ghost loads0 = plan.loads@;
    let ghost regs0 = plan.registrations@;
    if contains_name(picked, &node.name) {
        proof {
            let k = choose|k: int| 0 <= k < picked@.len() && (#[trigger] picked@[k])@ == node.name@;
            assert(nodes@[loads0[k].0 as int].name@ == nodes@[index as int].name@);
        }
        return Ok(());
    }
    assert(!exists|k: int| 0 <= k < loads0.len() && nodes@[(#[trigger] loads0[k]).0 as int].name@ == nodes@[index as int].name@) by {
        if exists|k: int| 0 <= k < loads0.len() && nodes@[(#[trigger] loads0[k]).0 as int].name@ == nodes@[index as int].name@ {
            let k = choose|k: int| 0 <= k < loads0.len() && nodes@[(#[trigger] loads0[k]).0 as int].name@ == nodes@[index as int].name@;
            assert(picked@[k]@ == node.name@);
        }
    }
    match pick_loader(loaders, node) {
        Some(l) => {
            proof {
                assert(is_first_loader(loaders@, node, l as int));
                let c = choose|m: int| is_first_loader(loaders@, node, m);
                if c < l as int {
                    assert(!node_matches(node, &loaders@[c]));
                }
                if (l as int) < c {
                    assert(!node_matches(node, &loaders@[l as int]));
                }
                assert(first_loader(loaders@, node) == Some(l as int));
            }
            let info = driver_info(node)?;
            if let Some(parent) = info.interrupt_parent {
                let mut j: usize = 0;
                while j < info.interrupts.len()
                    invariant
                        j <= info.interrupts@.len(),
                        plan_wf(plan, picked@, loaders@, nodes@),
                        plan.loads@ == loads0,
                        info.interrupt_parent == Some(parent),
                        info.interrupts@.len() == node.interrupts@.len(),
                        forall|k: int| 0 <= k < node.interrupts@.len() ==> #[trigger] info.interrupts@[k].id == node.interrupts@[k],
                        node.interrupt_parent is Some && parent == node.interrupt_parent.unwrap() as u32,
                        forall|k: int| 0 <= k < node.interrupts@.len() ==> #[trigger] node.interrupts@[k] <= u32::MAX,
                        plan.registrations@ == regs0 + node_registrations(node).take(j as int),
                    decreases info.interrupts@.len() - j,
                {
                    plan.registrations.push((parent, info.interrupts[j]));
                    proof {
                        let x = info.interrupts@[j as int];
                        assert(x.id == node.interrupts@[j as int]);
                        assert(node.interrupts@[j as int] <= u32::MAX);
                        assert(x.id == node.interrupts@[j as int] as u32);
                        assert(x == InterruptId { id: node.interrupts@[j as int] as u32 });
                        assert(node_registrations(node).take(j + 1) =~= node_registrations(node).take(j as int).push(
                            (parent, info.interrupts@[j as int]),
                        ));
                    }
                    j = j + 1;
                }
                assert(node_registrations(node).take(j as int) =~= node_registrations(node));
            } else {
                assert(regs0 + node_registrations(node) =~= regs0);
            }
            plan.loads.push((index, l));
            picked.push(node.name.clone());
            proof {
                assert forall|a: int, b: int|
                    0 <= a < b < plan.loads@.len() implies nodes@[(#[trigger] plan.loads@[a]).0 as int].name@
                        != nodes@[(#[trigger] plan.loads@[b]).0 as int].name@ by {
                    if b == plan.loads@.len() - 1 {
                        assert(picked@[a]@ == nodes@[plan.loads@[a].0 as int].name@);
                    }
                }
            }
            Ok(())
        },
        None => Ok(()),
    }
}

/// Plan the drivers to load: the standard-output node first, then every node
/// in order; a node name is loaded at most once, with the first loader that
/// matches it. Fails when a node's interrupt information does not fit.
pub fn plan_drivers(loaders: &Vec<DriverLoader>, nodes: &Vec<DeviceNode>, stdout: Option<usize>) -> (r: KernelResult<DriverPlan>)
    ensures
        r.is_ok() ==> (r.unwrap().loads@, r.unwrap().registrations@) == plan_after(
            loaders@,
            nodes@,
            visit_order(nodes@.len(), stdout),
        ),
        (forall|i: int| 0 <= i < nodes@.len() ==> info_ok(#[trigger] &nodes@[i])) ==> r.is_ok(),
        r.is_ok() ==> plan_matches(&r.unwrap(), loaders@, nodes@),
        r.is_ok() ==> forall|a: int, b: int|
            0 <= a < b < r.unwrap().loads@.len() ==> nodes@[(#[trigger] r.unwrap().loads@[a]).0 as int].name@
                != nodes@[(#[trigger] r.unwrap().loads@[b]).0 as int].name@,
{
    let mut plan = DriverPlan { loads: Vec::new(), registrations: Vec::new() };
    let mut picked: Vec<String> = Vec::new();
    let ghost order = visit_order(nodes@.len(), stdout);
    let ghost first: int = 0;
    if let Some(i) = stdout {
        if i < nodes.len() {
            proof {
                assert(order.take(0) =~= Seq::<int>::empty());
                assert(order.take(1).drop_last() =~= order.take(0));
                assert(order[0] == i);
            }
            visit_node(&mut plan, &mut picked, loaders, nodes, i)?;
            proof {
                first = 1;
                assert(order.take(1).drop_last() =~= Seq::<int>::empty());
                assert(order.take(1).last() == i);
                assert(plan_after(loaders@, nodes@, Seq::<int>::empty()) == (Seq::<(usize, usize)>::empty(), Seq::<(u32, InterruptId)>::empty()));
                assert((plan.loads@, plan.registrations@) == plan_after(loaders@, nodes@, order.take(1)));
            }
        }
    }
    proof {
        assert(order.take(0) =~= Seq::<int>::empty());
        assert(first == order.len() - nodes@.len());
        if first == 0 {
            assert(plan.loads@ =~= Seq::<(usize, usize)>::empty());
            assert(plan.registrations@ =~= Seq::<(u32, InterruptId)>::empty());
        }
        assert((plan.loads@, plan.registrations@) == plan_after(loaders@, nodes@, order.take(first)));
        assert forall|k: int| 0 <= k < nodes@.len() implies #[trigger] order[first + k] == k by {
        }
    }
    let mut i: usize = 0;
    while i < nodes.len()
        invariant
            i <= nodes@.len(),
            plan_wf(&plan, picked@, loaders@, nodes@),
            order == visit_order(nodes@.len(), stdout),
            first == order.len() - nodes@.len(),
            0 <= first <= 1,
            forall|k: int| 0 <= k < nodes@.len() ==> #[trigger] order[first + k] == k,
            (plan.loads@, plan.registrations@) == plan_after(loaders@, nodes@, order.take(first + i)),
        decreases nodes@.len() - i,
    {
        proof {
            assert(order.take(first + i + 1).drop_last() =~= order.take(first + i));
            assert(order.take(first + i + 1).last() == i);
        }
        visit_node(&mut plan, &mut picked, loaders, nodes, i)?;
        i = i + 1;
    }
    assert(order.take(first + i) =~= order);
    Ok(plan)
}

/// What runs when an interrupt is claimed
#[derive(Copy, Clone, Debug, PartialEq, Eq, Structural)]
pub enum InterruptHandler {
    /// Read the UART and hand characters to the processes waiting on it
    Uart,
}

/// The per-interrupt handler registry
pub struct InterruptHandlers {
    pub handlers: Vec<(InterruptId, InterruptHandler)>,
}

impl InterruptHandlers {
    /// An empty registry
    pub fn new() -> (r: InterruptHandlers)
        ensures
            r.handlers@.len() == 0,
    {
        InterruptHandlers { handlers: Vec::new() }
    }

    /// Is a handler registered for `id`?
    pub fn is_registered(&self, id: InterruptId) -> (r: bool)
        ensures
            r == exists|i: int| 0 <= i < self.handlers@.len() && (#[trigger] self.handlers@[i]).0 == id,
    {
        let mut i: usize = 0;
        while i < self.handlers.len()
            invariant
                i <= self.handlers@.len(),
                forall|k: int| 0 <= k < i ==> (#[trigger] self.handlers@[k]).0 != id,
            decreases self.handlers@.len() - i,
        {
            if self.handlers[i].0 == id {
                return true;
            }
            i = i + 1;
        }
        false
    }

    /// Register the handler of interrupt `id`; an interrupt has at most one
    pub fn register_handler(&mut self, id: InterruptId, handler: InterruptHandler)
        requires
            !exists|i: int| 0 <= i < old(self).handlers@.len() && (#[trigger] old(self).handlers@[i]).0 == id,
        ensures
            final(self).handlers@ == old(self).handlers@.push((id, handler)),
    {
        self.handlers.push((id, handler));
    }

    /// The handler to run for a claimed interrupt, or `InterruptUnavailable`
    pub fn run_handler(&self, id: InterruptId) -> (r: KernelResult<InterruptHandler>)
        ensures
            r.is_ok() ==> exists|i: int| 0 <= i < self.handlers@.len() && (#[trigger] self.handlers@[i]) == (id, r.unwrap()),
            r.is_err() <==> !exists|i: int| 0 <= i < self.handlers@.len() && (#[trigger] self.handlers@[i]).0 == id,
            r.is_err() ==> r == Err::<InterruptHandler, KernelError>(KernelError::InterruptUnavailable),
    {
        let mut i: usize = 0;
        while i < self.handlers.len()
            invariant
                i <= self.handlers@.len(),
                forall|k: int| 0 <= k < i ==> (#[trigger] self.handlers@[k]).0 != id,
            decreases self.handlers@.len() - i,
        {
            if self.handlers[i].0 == id {
                return Ok(self.handlers[i].1);
            }
            i = i + 1;
        }
        Err(KernelError::InterruptUnavailable)
    }
}

/// Decode the bytes a process wrote with `PutString`; they must be valid UTF-8
pub fn decode_user_string(bytes: Vec<u8>) -> (r: KernelResult<String>)
    ensures
        r.is_ok() <==> valid_utf8(bytes@),
        r.is_ok() ==> r.unwrap()@ == decode_utf8(bytes@),
        r.is_err() ==> r == Err::<String, KernelError>(KernelError::InvalidArguments),
{
    match string_from_utf8(bytes) {
        Some(s) => Ok(s),
        None => Err(KernelError::InvalidArguments),
    }
}

/// The replacement character, for bytes that do not form a character
pub const REPLACEMENT: char = '\u{fffd}';

/// Turns the byte stream of a UART into characters, one byte at a time
pub struct Utf8Decoder {
    /// Bytes of a character not yet complete
    pub pending: Vec<u8>,
}

impl Utf8Decoder {
    /// A decoder with nothing pending
    pub fn new() -> (r: Utf8Decoder)
        ensures
            r.pending@.len() == 0,
    {
        Utf8Decoder { pending: Vec::new() }
    }

    /// Feed one byte. Returns the character it completes; the replacement
    /// character when the bytes cannot start or form a character; `None`
    /// while a character is incomplete.
    pub fn push(&mut self, byte: u8) -> (r: Option<char>)
        requires
            old(self).pending@.len() < 4,
            old(self).pending@.len() > 0 ==> lead_width(old(self).pending@[0]) > old(self).pending@.len(),
        ensures
            final(self).pending@.len() < 4,
            final(self).pending@.len() > 0 ==> lead_width(final(self).pending@[0]) > final(self).pending@.len(),
            r.is_none() ==> final(self).pending@ == old(self).pending@.push(byte),
            r.is_some() ==> final(self).pending@.len() == 0,
            r.is_some() && r.unwrap() != REPLACEMENT ==> char_bytes(r.unwrap()) == old(self).pending@.push(byte),
            valid_utf8(old(self).pending@.push(byte)) && old(self).pending@.push(byte).len() > 0 && lead_width(
                old(self).pending@.push(byte)[0],
            ) == old(self).pending@.push(byte).len() ==> r.is_some() && char_bytes(r.unwrap()) == old(self).pending@.push(byte),
    {
        self.pending.push(byte);
        let lead = self.pending[0];
        let w: usize = if lead <= 0x7f {
            1
        } else if 0xc0 <= lead && lead <= 0xdf {
            2
        } else if 0xe0 <= lead && lead <= 0xef {
            3
        } else if 0xf0 <= lead && lead <= 0xf7 {
            4
        } else {
            0
        };
        if w == 0 {
            assert(!valid_utf8(self.pending@)) by {
                assert(lead_width(self.pending@[0]) == 0);
            }
            self.pending.clear();
            return Some(REPLACEMENT);
        }
        if self.pending.len() < w {
            return None;
        }
        let mut bytes: Vec<u8> = Vec::new();
        let mut k: usize = 0;
        while k < self.pending.len()
            invariant
                k <= self.pending@.len(),
                bytes@ == self.pending@.subrange(0, k as int),
            decreases self.pending@.len() - k,
        {
            bytes.push(self.pending[k]);
            assert(bytes@ =~= self.pending@.subrange(0, k + 1));
            k = k + 1;
        }
        assert(bytes@ =~= self.pending@);
        let ghost all = self.pending@;
        self.pending.clear();
        match string_from_utf8(bytes) {
            Some(s) => {
                proof {
                    lemma_single_char(all);
                }
                Some(first_char(&s))
            },
            None => Some(REPLACEMENT),
        }
    }
}

} // verus!

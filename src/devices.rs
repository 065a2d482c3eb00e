use vstd::prelude::*;

verus! {

/// A function found on the PCI bus.
#[derive(Clone, Copy, Debug, PartialEq, Eq, Structural)]
pub struct PciDevice {
    pub bus: u8,
    pub slot: u8,
    pub function: u8,
    pub vendor_id: u16,
    pub device_id: u16,
}

/// Vendor id that an empty slot or function reads as.
pub const NO_VENDOR: u16 = 0xFFFF;

/// PCI configuration space, read a 16-bit word at a time.
pub trait PciConfigSpace {
    fn read_word(&self, bus: u8, slot: u8, function: u8, offset: u8) -> u16;
}

/// The configuration-address register value that selects the dword of
/// `offset` in the configuration space of (`bus`, `slot`, `function`).
pub open spec fn config_address(bus: u8, slot: u8, function: u8, offset: u8) -> u32 {
    0x8000_0000u32 | ((bus as u32) << 16u32) | ((slot as u32) << 11u32) | ((function as u32)
        << 8u32) | ((offset as u32) & 0xfcu32)
}

/// The configuration-address register value for a read at `offset`.
pub fn pci_config_address(bus: u8, slot: u8, function: u8, offset: u8) -> (r: u32)
    ensures
        r == config_address(bus, slot, function, offset),
{
    0x8000_0000u32 | ((bus as u32) << 16u32) | ((slot as u32) << 11u32) | ((function as u32)
        << 8u32) | ((offset as u32) & 0xfcu32)
}

/// The 16-bit word at `offset` within the configuration dword `dword`.
pub open spec fn word_in_dword(dword: u32, offset: u8) -> u16 {
    ((dword >> (if offset & 2u8 == 0 { 0u32 } else { 16u32 })) & 0xFFFFu32) as u16
}

/// The 16-bit word at `offset` within the configuration dword `dword`.
pub fn config_word(dword: u32, offset: u8) -> (r: u16)
    ensures
        r == word_in_dword(dword, offset),
{
    let shift: u32 = if offset & 2u8 == 0 { 0 } else { 16 };
    ((dword >> shift) & 0xFFFFu32) as u16
}

/// Position of (`bus`, `slot`, `function`) in scan order.
pub open spec fn location(bus: u8, slot: u8, function: u8) -> int {
    bus as int * 256 + slot as int * 8 + function as int
}

/// Whether `d` names a present function at a valid slot and function.
pub open spec fn plausible(d: PciDevice) -> bool {
    &&& d.vendor_id != NO_VENDOR
    &&& d.slot < 32
    &&& d.function < 8
}

/// `s` lists functions in strictly increasing scan order.
pub open spec fn in_scan_order(s: Seq<PciDevice>) -> bool {
    forall|i: int, j: int|
        0 <= i < j < s.len() ==> location(s[i].bus, s[i].slot, s[i].function) < location(
            s[j].bus,
            s[j].slot,
            s[j].function,
        )
}

/// Number of (bus, slot, function) locations in scan order.
pub const SCAN_LOCATIONS: u32 = 65536;

/// Bus of the location at position `pos` in scan order.
pub open spec fn bus_at(pos: u32) -> u8 {
    (pos / 256) as u8
}

/// Slot of the location at position `pos` in scan order.
pub open spec fn slot_at(pos: u32) -> u8 {
    ((pos / 8) % 32) as u8
}

/// Function of the location at position `pos` in scan order.
pub open spec fn function_at(pos: u32) -> u8 {
    (pos % 8) as u8
}

proof fn lemma_location_at(pos: u32)
    requires
        pos < 65536,
    ensures
        location(bus_at(pos), slot_at(pos), function_at(pos)) == pos,
        slot_at(pos) < 32,
        function_at(pos) < 8,
{
    assert((pos / 256) * 256 + ((pos / 8) % 32) * 8 + pos % 8 == pos && pos / 256 < 256 && (pos
        / 8) % 32 < 32 && pos % 8 < 8) by (bit_vector)
        requires
            pos < 65536u32,
    ;
}

/// A PCI bus scan in progress: the next location to probe, the vendor id
/// read there if it is present and its device id is still to be read, and
/// the functions found so far.
pub struct PciScan {
    pos: u32,
    vendor: Option<u16>,
    devices: Vec<PciDevice>,
}

impl PciScan {
    /// Position of the location being probed.
    pub closed spec fn position(&self) -> u32 {
        self.pos
    }

    /// Vendor id read at that location, while its device id is to be read.
    pub closed spec fn pending(&self) -> Option<u16> {
        self.vendor
    }

    /// The functions found so far.
    pub closed spec fn found(&self) -> Seq<PciDevice> {
        self.devices@
    }

    pub open spec fn wf(&self) -> bool {
        &&& self.position() <= SCAN_LOCATIONS
        &&& self.position() == SCAN_LOCATIONS ==> self.pending() is None
        &&& self.pending() matches Some(v) ==> v != NO_VENDOR
        &&& forall|i: int| 0 <= i < self.found().len() ==> plausible(#[trigger] self.found()[i])
        &&& in_scan_order(self.found())
        &&& forall|i: int|
            0 <= i < self.found().len() ==> location(
                #[trigger] self.found()[i].bus,
                self.found()[i].slot,
                self.found()[i].function,
            ) < self.position()
    }

    /// What is left to do, for termination.
    pub open spec fn remaining(&self) -> nat {
        (2 * (SCAN_LOCATIONS - self.position()) - if self.pending() is Some {
            1int
        } else {
            0int
        }) as nat
    }

    pub fn new() -> (r: Self)
        ensures
            r.wf(),
            r.position() == 0,
            r.pending() is None,
            r.found() == Seq::<PciDevice>::empty(),
    {
        PciScan { pos: 0, vendor: None, devices: Vec::new() }
    }

    /// The configuration word to read next, as (bus, slot, function,
    /// offset): the vendor id at offset 0, or, once a vendor is present, the
    /// device id at offset 2; none once every location is probed.
    pub fn next_read(&self) -> (r: Option<(u8, u8, u8, u8)>)
        requires
            self.wf(),
        ensures
            r == (if self.position() >= SCAN_LOCATIONS {
                None
            } else {
                Some(
                    (
                        bus_at(self.position()),
                        slot_at(self.position()),
                        function_at(self.position()),
                        if self.pending() is Some {
                            2u8
                        } else {
                            0u8
                        },
                    ),
                )
            }),
    {
        if self.pos >= SCAN_LOCATIONS {
            return None;
        }
        let offset: u8 = if self.vendor.is_some() { 2 } else { 0 };
        Some(((self.pos / 256) as u8, ((self.pos / 8) % 32) as u8, (self.pos % 8) as u8, offset))
    }

    /// Takes the word that `next_read` asked for. A vendor id of `NO_VENDOR`
    /// moves on to the next location, another vendor id waits for the
    /// device id, and a device id records the function and moves on.
    pub fn feed(&mut self, word: u16)
        requires
            old(self).wf(),
            old(self).position() < SCAN_LOCATIONS,
        ensures
            final(self).wf(),
            final(self).remaining() < old(self).remaining(),
            match old(self).pending() {
                None => if word == NO_VENDOR {
                    &&& final(self).position() == old(self).position() + 1
                    &&& final(self).pending() is None
                    &&& final(self).found() == old(self).found()
                } else {
                    &&& final(self).position() == old(self).position()
                    &&& final(self).pending() == Some(word)
                    &&& final(self).found() == old(self).found()
                },
                Some(v) => {
                    &&& final(self).position() == old(self).position() + 1
                    &&& final(self).pending() is None
                    &&& final(self).found() == old(self).found().push(
                        PciDevice {
                            bus: bus_at(old(self).position()),
                            slot: slot_at(old(self).position()),
                            function: function_at(old(self).position()),
                            vendor_id: v,
                            device_id: word,
                        },
                    )
                },
            },
    {
        proof {
            lemma_location_at(self.pos);
        }
        match self.vendor {
            None => {
                if word != NO_VENDOR {
                    self.vendor = Some(word);
                } else {
                    self.pos = self.pos + 1;
                }
            },
            Some(v) => {
                let d = PciDevice {
                    bus: (self.pos / 256) as u8,
                    slot: ((self.pos / 8) % 32) as u8,
                    function: (self.pos % 8) as u8,
                    vendor_id: v,
                    device_id: word,
                };
                let ghost pre = self.devices@;
                let ghost pos = self.pos;
                self.devices.push(d);
                self.vendor = None;
                self.pos = self.pos + 1;
                proof {
                    let s = self.devices@;
                    assert(location(d.bus, d.slot, d.function) == pos);
                    assert forall|i: int| 0 <= i < s.len() implies plausible(#[trigger] s[i]) by {
                        if i < pre.len() {
                            assert(s[i] == pre[i]);
                        }
                    }
                    assert forall|i: int, j: int| 0 <= i < j < s.len() implies location(
                        s[i].bus,
                        s[i].slot,
                        s[i].function,
                    ) < location(s[j].bus, s[j].slot, s[j].function) by {
                        assert(s[i] == pre[i]);
                        if j < pre.len() {
                            assert(s[j] == pre[j]);
                        }
                    }
                    assert forall|i: int| 0 <= i < s.len() implies location(
                        #[trigger] s[i].bus,
                        s[i].slot,
                        s[i].function,
                    ) < pos + 1 by {
                        if i < pre.len() {
                            assert(s[i] == pre[i]);
                        }
                    }
                }
            },
        }
    }

    /// The functions found, ending the scan.
    pub fn into_devices(self) -> (r: Vec<PciDevice>)
        ensures
            r@ == self.found(),
    {
        self.devices
    }
}

/// Every function of every slot of every bus whose vendor id reads as
/// present, in bus, slot, function order: each configuration word read goes
/// to `PciScan::feed`, which decides what to read next and what to record.
pub fn scan_pci_devices<C: PciConfigSpace>(config: &C) -> (r: Vec<PciDevice>)
    ensures
        forall|i: int| 0 <= i < r@.len() ==> plausible(#[trigger] r@[i]),
        in_scan_order(r@),
        r@.len() <= SCAN_LOCATIONS,
{
    let mut scan = PciScan::new();
    loop
        invariant
            scan.wf(),
        decreases scan.remaining(),
    {
        match scan.next_read() {
            Some((bus, slot, function, offset)) => {
                let word = config.read_word(bus, slot, function, offset);
                scan.feed(word);
            },
            None => {
                break;
            },
        }
    }
    let r = scan.into_devices();
    proof {
        lemma_found_bounded(r@);
    }
    r
}

proof fn lemma_found_bounded(s: Seq<PciDevice>)
    requires
        forall|i: int| 0 <= i < s.len() ==> plausible(#[trigger] s[i]),
        in_scan_order(s),
    ensures
        s.len() <= SCAN_LOCATIONS,
    decreases s.len(),
{
    if s.len() > 0 {
        let t = s.drop_last();
        assert(forall|i: int| 0 <= i < t.len() ==> #[trigger] t[i] == s[i]);
        lemma_found_bounded(t);
        let n = s.len() - 1;
        if n > 0 {
            assert(location(s[n - 1].bus, s[n - 1].slot, s[n - 1].function) >= n - 1) by {
                lemma_order_lower_bound(s, n - 1);
            }
        }
        lemma_order_lower_bound(s, n);
        assert(plausible(s[n]));
        assert(location(s[n].bus, s[n].slot, s[n].function) < 65536);
    }
}

proof fn lemma_order_lower_bound(s: Seq<PciDevice>, k: int)
    requires
        in_scan_order(s),
        0 <= k < s.len(),
    ensures
        location(s[k].bus, s[k].slot, s[k].function) >= k,
    decreases k,
{
    if k > 0 {
        lemma_order_lower_bound(s, k - 1);
    }
}

} // verus!

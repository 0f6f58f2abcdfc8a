//! The telemetry store: the latest snapshot of each device, keyed by its
//! one-byte identifier, and the power totals over all of them.
use vstd::prelude::*;
use crate::power::{
    device_load, device_power, device_pv, field_texts, FieldLayout, PowerSample,
    DEVICE_LOAD_BOUND, DEVICE_PV_BOUND,
};

verus! {

/// The latest successful poll of one device.
#[derive(Clone, Debug)]
pub struct DeviceSnapshot {
    /// The device's name.
    pub label: String,
    /// The tokens of its last primary reply, in protocol order.
    pub raw_fields: Vec<String>,
    /// The last daily energy total read, in kilowatt-hours.
    pub cached_energy: String,
    /// When the primary reply came, `HH:MM:SS`.
    pub last_update: String,
}

/// Number of device identifiers.
pub const ID_COUNT: usize = 256;

/// One slot per identifier; a slot fills on the device's first commit and is
/// replaced whole on every later one.
pub struct TelemetryStore {
    slots: Vec<Option<DeviceSnapshot>>,
}

/// Total photovoltaic power of the devices with an identifier below `n`.
pub open spec fn total_pv(m: Map<u8, DeviceSnapshot>, layout: FieldLayout, n: int) -> nat
    decreases n,
{
    if n <= 0 {
        0
    } else {
        let id = (n - 1) as u8;
        total_pv(m, layout, n - 1) + if m.contains_key(id) {
            device_pv(field_texts(m[id].raw_fields@), layout)
        } else {
            0
        }
    }
}

/// Total load power of the devices with an identifier below `n`.
pub open spec fn total_load(m: Map<u8, DeviceSnapshot>, layout: FieldLayout, n: int) -> nat
    decreases n,
{
    if n <= 0 {
        0
    } else {
        let id = (n - 1) as u8;
        total_load(m, layout, n - 1) + if m.contains_key(id) {
            device_load(field_texts(m[id].raw_fields@), layout)
        } else {
            0
        }
    }
}

impl View for TelemetryStore {
    type V = Map<u8, DeviceSnapshot>;

    closed spec fn view(&self) -> Map<u8, DeviceSnapshot> {
        Map::new(|k: u8| self.slots@[k as int] is Some, |k: u8| self.slots@[k as int]->0)
    }
}

impl TelemetryStore {
    /// One slot for every identifier.
    pub closed spec fn wf(&self) -> bool {
        self.slots@.len() == ID_COUNT
    }

    /// A store with no snapshot.
    pub fn new() -> (r: TelemetryStore)
        ensures
            r.wf(),
            r@ == Map::<u8, DeviceSnapshot>::empty(),
    {
        let mut slots: Vec<Option<DeviceSnapshot>> = Vec::new();
        let mut i: usize = 0;
        while i < ID_COUNT
            invariant
                i <= ID_COUNT,
                slots@.len() == i,
                forall|j: int| 0 <= j < i ==> slots@[j] is None,
            decreases ID_COUNT - i,
        {
            slots.push(None);
            i = i + 1;
        }
        let r = TelemetryStore { slots };
        assert(r@ =~= Map::<u8, DeviceSnapshot>::empty());
        r
    }

    /// Replaces the snapshot of device `id` as a whole.
    pub fn commit(&mut self, id: u8, snapshot: DeviceSnapshot)
        requires
            old(self).wf(),
        ensures
            final(self).wf(),
            final(self)@ == old(self)@.insert(id, snapshot),
    {
        let ghost snap = snapshot;
        self.slots.set(id as usize, Some(snapshot));
        assert(self@ =~= old(self)@.insert(id, snap));
    }

    /// The snapshot of device `id`, if it has one.
    pub fn get(&self, id: u8) -> (r: Option<&DeviceSnapshot>)
        requires
            self.wf(),
        ensures
            r is Some <==> self@.contains_key(id),
            r matches Some(s) ==> *s == self@[id],
    {
        match &self.slots[id as usize] {
            Some(s) => Some(s),
            None => None,
        }
    }

    /// Photovoltaic and load power summed over every device's snapshot, in
    /// millionths of a watt.
    pub fn total_power(&self, layout: &FieldLayout) -> (r: PowerSample)
        requires
            self.wf(),
        ensures
            r.pv_power == total_pv(self@, *layout, ID_COUNT as int),
            r.load_power == total_load(self@, *layout, ID_COUNT as int),
    {
        let mut pv: u128 = 0;
        let mut load: u128 = 0;
        let mut i: usize = 0;
        while i < ID_COUNT
            invariant
                self.slots@.len() == ID_COUNT,
                i <= ID_COUNT,
                pv == total_pv(self@, *layout, i as int),
                load == total_load(self@, *layout, i as int),
                pv <= i * DEVICE_PV_BOUND,
                load <= i * DEVICE_LOAD_BOUND,
            decreases ID_COUNT - i,
        {
            let ghost id = i as u8;
            assert(((i + 1) - 1) as u8 == id);
            match &self.slots[i] {
                Some(s) => {
                    assert(self@.contains_key(id));
                    let d = device_power(&s.raw_fields, layout);
                    pv = pv + d.pv_power;
                    load = load + d.load_power;
                },
                None => {
                    assert(!self@.contains_key(id));
                },
            }
            i = i + 1;
        }
        PowerSample { pv_power: pv, load_power: load }
    }
}

/// A device whose reply is shorter than the layout adds nothing: the totals
/// are those of the store without it.
pub proof fn lemma_short_device_excluded(
    m: Map<u8, DeviceSnapshot>,
    id: u8,
    layout: FieldLayout,
    n: int,
)
    requires
        m.contains_key(id),
        m[id].raw_fields@.len() < layout.min_len(),
    ensures
        total_pv(m, layout, n) == total_pv(m.remove(id), layout, n),
        total_load(m, layout, n) == total_load(m.remove(id), layout, n),
    decreases n,
{
    if n > 0 {
        lemma_short_device_excluded(m, id, layout, n - 1);
    }
}

} // verus!

//! Energy from the processors' own counters and from batteries.

use vstd::prelude::*;
use crate::key_values::{number, number_in};
use crate::metrics::{add_counter, capped, counter_sum, wide_product};
use crate::table::{lemma_total_pairs, map_total, of_entry, seq_sum, Table};
use crate::text::{
    append_text, begins_with, chars_of, same_chars, starts_with, texts, trim, trim_chars,
};

verus! {

/// The increase of a counter that starts again at zero after its maximum.
pub open spec fn rolled_increase(previous: u64, current: u64, maximum: u64) -> u64 {
    if current >= previous {
        (current - previous) as u64
    } else {
        counter_sum(
            if maximum >= previous {
                (maximum - previous) as u64
            } else {
                0
            },
            current,
        )
    }
}

pub fn counter_delta(previous: u64, current: u64, maximum: u64) -> (delta: u64)
    ensures
        delta == rolled_increase(previous, current, maximum),
{
    if current >= previous {
        current - previous
    } else {
        maximum.saturating_sub(previous).saturating_add(current)
    }
}

/// A zone that stands within no other zone: zones are named by their parent's
/// name, a colon and a number.
pub open spec fn outermost(names: Seq<Seq<char>>, name: Seq<char>) -> bool {
    forall|i: int|
        0 <= i < names.len() && #[trigger] names[i] != name ==> !starts_with(name, names[i] + ":"@)
}

/// Whether a power zone counts: the energy of a zone within another one is
/// already part of that one's energy.
pub fn counts_zone(names: &Vec<String>, name: &str) -> (yes: bool)
    ensures
        yes == outermost(texts(names@), name@),
{
    let chars = chars_of(name);
    for i in 0..names.len()
        invariant
            chars@ == name@,
            forall|j: int|
                0 <= j < i && #[trigger] texts(names@)[j] != name@ ==> !starts_with(
                    name@,
                    texts(names@)[j] + ":"@,
                ),
    {
        let mut parent = chars_of(names[i].as_str());
        assert(texts(names@)[i as int] == names@[i as int]@);
        if !same_chars(parent.as_slice(), chars.as_slice()) {
            append_text(&mut parent, ":");
            if begins_with(chars.as_slice(), parent.as_slice()) {
                return false;
            }
        }
    }
    true
}

/// The number in a file, if it could be read and holds one.
pub open spec fn trimmed_number(text: Option<String>) -> Option<u64> {
    match text {
        Some(t) => number_in(trim(t@)),
        None => None,
    }
}

fn read_number(text: &Option<String>) -> (n: Option<u64>)
    ensures
        n == trimmed_number(*text),
{
    match text {
        Some(t) => {
            let chars = chars_of(t.as_str());
            number(trim_chars(chars.as_slice()))
        },
        None => None,
    }
}

/// A power zone's counter and the counter's maximum, from the zone's two files.
pub fn zone_reading(energy: &Option<String>, maximum: &Option<String>) -> (reading: Option<
    (u64, u64),
>)
    ensures
        reading == (match trimmed_number(*energy) {
            None => None,
            Some(value) => Some(
                (
                    value,
                    match trimmed_number(*maximum) {
                        Some(limit) => limit,
                        None => u64::MAX,
                    },
                ),
            ),
        }),
{
    match read_number(energy) {
        None => None,
        Some(value) => match read_number(maximum) {
            Some(limit) => Some((value, limit)),
            None => Some((value, u64::MAX)),
        },
    }
}

/// The files of one power supply.
#[derive(Debug)]
pub struct PowerSupply {
    pub kind: Option<String>,
    pub status: Option<String>,
    pub voltage_now: Option<String>,
    pub energy_full: Option<String>,
    pub charge_full: Option<String>,
    pub power_now: Option<String>,
    pub current_now: Option<String>,
}

/// The batteries of the machine together.
#[derive(Debug, Clone, Copy, PartialEq, Eq)]
pub struct BatterySample {
    pub full_picowatt_hours: u128,
    pub discharge_picowatts: u64,
}

pub open spec fn reads(text: Option<String>, word: Seq<char>) -> bool {
    match text {
        Some(t) => trim(t@) == word,
        None => false,
    }
}

fn holds(text: &Option<String>, word: &str) -> (yes: bool)
    ensures
        yes == reads(*text, word@),
{
    match text {
        Some(t) => {
            let chars = chars_of(t.as_str());
            let word = chars_of(word);
            same_chars(trim_chars(chars.as_slice()), word.as_slice())
        },
        None => false,
    }
}

pub open spec fn or_zero(n: Option<u64>) -> u64 {
    match n {
        Some(value) => value,
        None => 0,
    }
}

impl PowerSupply {
    /// The energy of the full battery: as given, else from its charge and voltage.
    pub open spec fn full(&self) -> nat {
        match trimmed_number(self.energy_full) {
            Some(microwatt_hours) => (microwatt_hours * 1_000_000) as nat,
            None => (or_zero(trimmed_number(self.charge_full)) * or_zero(
                trimmed_number(self.voltage_now),
            )) as nat,
        }
    }

    /// The power drawn from the battery: as given, else from its current and voltage.
    pub open spec fn discharge(&self) -> nat {
        if !reads(self.status, "Discharging"@) {
            0
        } else {
            match trimmed_number(self.power_now) {
                Some(microwatts) => (microwatts * 1_000_000) as nat,
                None => (or_zero(trimmed_number(self.current_now)) * or_zero(
                    trimmed_number(self.voltage_now),
                )) as nat,
            }
        }
    }

    pub open spec fn is_battery(&self) -> bool {
        reads(self.kind, "Battery"@)
    }

    fn product(given: &Option<String>, other: &Option<String>, voltage: &Option<String>) -> (p: u128)
        ensures
            p == (match trimmed_number(*given) {
                Some(value) => value * 1_000_000,
                None => or_zero(trimmed_number(*other)) * or_zero(trimmed_number(*voltage)),
            }),
    {
        match read_number(given) {
            Some(value) => wide_product(value, 1_000_000),
            None => {
                let factor = match read_number(other) {
                    Some(value) => value,
                    None => 0,
                };
                let volts = match read_number(voltage) {
                    Some(value) => value,
                    None => 0,
                };
                wide_product(factor, volts)
            },
        }
    }
}

/// A sum that stops at a limit.
pub open spec fn limited_sum(a: nat, b: nat, limit: nat) -> nat {
    if a + b <= limit {
        a + b
    } else {
        limit
    }
}

/// The batteries among the power supplies added up.
pub open spec fn batteries_of(supplies: Seq<PowerSupply>) -> (nat, nat)
    decreases supplies.len(),
{
    if supplies.len() == 0 {
        (0, 0)
    } else {
        let (full, discharge) = batteries_of(supplies.drop_last());
        let supply = supplies.last();
        if supply.is_battery() {
            (
                limited_sum(full, supply.full(), u128::MAX as nat),
                limited_sum(discharge, supply.discharge(), u64::MAX as nat),
            )
        } else {
            (full, discharge)
        }
    }
}

pub fn read_batteries(supplies: &Vec<PowerSupply>) -> (sample: BatterySample)
    ensures
        (sample.full_picowatt_hours as nat, sample.discharge_picowatts as nat) == batteries_of(
            supplies@,
        ),
{
    let mut full: u128 = 0;
    let mut discharge: u64 = 0;
    for i in 0..supplies.len()
        invariant
            (full as nat, discharge as nat) == batteries_of(supplies@.take(i as int)),
    {
        assert(supplies@.take(i + 1).drop_last() =~= supplies@.take(i as int));
        let supply = &supplies[i];
        if holds(&supply.kind, "Battery") {
            let energy = PowerSupply::product(
                &supply.energy_full,
                &supply.charge_full,
                &supply.voltage_now,
            );
            full = if energy > u128::MAX - full {
                u128::MAX
            } else {
                full + energy
            };
            if holds(&supply.status, "Discharging") {
                let power = PowerSupply::product(
                    &supply.power_now,
                    &supply.current_now,
                    &supply.voltage_now,
                );
                discharge = if power > (u64::MAX - discharge) as u128 {
                    u64::MAX
                } else {
                    discharge + power as u64
                };
            }
        }
    }
    assert(supplies@.take(supplies@.len() as int) =~= supplies@);
    BatterySample { full_picowatt_hours: full, discharge_picowatts: discharge }
}

/// The energy that the machine used during an interval: as its power zones counted
/// it, or by the power drawn from its batteries.
#[derive(Debug, Clone, Copy, PartialEq, Eq)]
pub struct EnergySample {
    pub microjoules: u64,
    /// Zero where the power zones counted.
    pub discharge_picowatts: u64,
    pub battery_full_picowatt_hours: u128,
    pub source: &'static str,
}

/// Remembers the power zones' counters from one sample to the next.
pub struct EnergySampler {
    pub previous_rapl: Table<String, (u64, u64)>,
}

/// What a zone's counter rose by; nothing for a zone that was not seen before.
pub open spec fn zone_increase(previous: Map<Seq<char>, (u64, u64)>) -> spec_fn(
    Seq<char>,
    (u64, u64),
) -> nat {
    |zone: Seq<char>, reading: (u64, u64)|
        if previous.contains_key(zone) {
            rolled_increase(previous[zone].0, reading.0, reading.1) as nat
        } else {
            0
        }
}

/// The energy that all zones counted.
pub open spec fn rapl_microjoules(
    previous: Map<Seq<char>, (u64, u64)>,
    current: Map<Seq<char>, (u64, u64)>,
) -> u64 {
    capped(map_total(current, zone_increase(previous)))
}

/// The processors' counters come first; the batteries' discharge serves where
/// those show nothing.
pub open spec fn energy_sample(
    previous: Map<Seq<char>, (u64, u64)>,
    current: Map<Seq<char>, (u64, u64)>,
    battery: BatterySample,
    nanoseconds: u64,
) -> EnergySample {
    let rapl = rapl_microjoules(previous, current);
    EnergySample {
        microjoules: rapl,
        discharge_picowatts: if rapl == 0 && nanoseconds > 0 {
            battery.discharge_picowatts
        } else {
            0
        },
        battery_full_picowatt_hours: battery.full_picowatt_hours,
        source: if rapl > 0 {
            "rapl"
        } else if battery.discharge_picowatts > 0 && nanoseconds > 0 {
            "battery"
        } else {
            "unavailable"
        },
    }
}

impl EnergySampler {
    pub open spec fn wf(&self) -> bool {
        self.previous_rapl.wf()
    }

    pub fn new() -> (sampler: Self)
        ensures
            sampler.wf(),
            sampler.previous_rapl@ == Map::<Seq<char>, (u64, u64)>::empty(),
    {
        EnergySampler { previous_rapl: Table::new() }
    }

    fn rapl_increase(&self, current: &Table<String, (u64, u64)>) -> (total: u64)
        requires
            self.wf(),
            current.wf(),
        ensures
            total == rapl_microjoules(self.previous_rapl@, current@),
    {
        let ghost f = zone_increase(self.previous_rapl@);
        let ghost of_pair = of_entry::<String, (u64, u64)>(f);
        let mut total: u64 = 0;
        let count = current.len();
        for i in 0..count
            invariant
                self.wf(),
                count == current.pairs().len(),
                f == zone_increase(self.previous_rapl@),
                of_pair == of_entry::<String, (u64, u64)>(f),
                total == capped(seq_sum(current.pairs().take(i as int), of_pair)),
        {
            proof {
                assert(current.pairs().take(i + 1).drop_last() =~= current.pairs().take(i as int));
            }
            let (value, maximum) = *current.value_at(i);
            if let Some((previous, _)) = self.previous_rapl.get(current.key_at(i)) {
                add_counter(&mut total, counter_delta(*previous, value, maximum));
            }
        }
        proof {
            assert(current.pairs().take(count as int) =~= current.pairs());
            lemma_total_pairs(current.pairs(), f);
        }
        total
    }

    pub fn sample(
        &mut self,
        current: Table<String, (u64, u64)>,
        battery: BatterySample,
        nanoseconds: u64,
    ) -> (sample: EnergySample)
        requires
            old(self).wf(),
            current.wf(),
        ensures
            final(self).wf(),
            final(self).previous_rapl == current,
            sample == energy_sample(
                old(self).previous_rapl@,
                current@,
                battery,
                nanoseconds,
            ),
    {
        let rapl = self.rapl_increase(&current);
        self.previous_rapl = current;
        EnergySample {
            microjoules: rapl,
            discharge_picowatts: if rapl == 0 && nanoseconds > 0 {
                battery.discharge_picowatts
            } else {
                0
            },
            battery_full_picowatt_hours: battery.full_picowatt_hours,
            source: if rapl > 0 {
                "rapl"
            } else if battery.discharge_picowatts > 0 && nanoseconds > 0 {
                "battery"
            } else {
                "unavailable"
            },
        }
    }
}

} // verus!

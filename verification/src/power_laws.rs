//! What a sample of the energy that the machine used says.

use vstd::prelude::*;
use crate::counter_laws::fitting;
use crate::energy::{
    batteries_of, energy_sample, outermost, reads, rolled_increase, trimmed_number,
    BatterySample, PowerSupply,
};
use crate::splitting_laws::lemma_parse_decimal;
use crate::table::map_total;
use crate::text::{decimal, starts_with, trim};
use crate::text_laws::lemma_endings;

verus! {

/// A counter that goes on counts the difference; one that went round counts what was
/// left and what came after.
pub proof fn lemma_rolled(previous: u64, current: u64, maximum: u64)
    ensures
        previous <= current ==> previous + rolled_increase(previous, current, maximum) == current,
        current < previous <= maximum ==> rolled_increase(previous, current, maximum) == fitting(
            maximum - previous + current,
        ),
        current < previous && maximum < previous ==> rolled_increase(previous, current, maximum)
            == current,
{
}

/// A zone within another is not counted beside it.
pub proof fn lemma_zones(names: Seq<Seq<char>>, outer: Seq<char>, number: Seq<char>)
    requires
        names.contains(outer),
    ensures
        !outermost(names, outer + ":"@ + number),
{
    reveal_strlit(":");
    let inner = outer + ":"@ + number;
    let i = choose|i: int| 0 <= i < names.len() && names[i] == outer;
    lemma_endings(number, outer + ":"@);
    assert(inner.len() > outer.len());
    assert(names[i] != inner && starts_with(inner, names[i] + ":"@));
}

/// A zone that begins like none of the others is counted.
pub proof fn lemma_outer_zone(names: Seq<Seq<char>>, name: Seq<char>)
    requires
        forall|i: int| 0 <= i < names.len() ==> !starts_with(name, #[trigger] names[i] + ":"@),
    ensures
        outermost(names, name),
{
}

/// The file holds this number.
pub open spec fn shows(text: Option<String>, n: u64) -> bool {
    text is Some && trim(text->0@) == decimal(n as nat)
}

/// What a file shows is the number that is read from it.
pub proof fn lemma_shown(text: Option<String>, n: u64)
    requires
        shows(text, n),
    ensures
        trimmed_number(text) == Some(n),
{
    lemma_parse_decimal(n as nat, u64::MAX as nat);
}

/// A battery's energy is given in microwatt hours, else it is its charge at its
/// voltage.
pub proof fn lemma_full(supply: PowerSupply, n: u64, volts: u64)
    ensures
        shows(supply.energy_full, n) ==> supply.full() == n * 1_000_000,
        supply.energy_full is None && shows(supply.charge_full, n) && shows(
            supply.voltage_now,
            volts,
        ) ==> supply.full() == n * volts,
        supply.energy_full is None && supply.charge_full is None ==> supply.full() == 0,
{
    if shows(supply.energy_full, n) {
        lemma_shown(supply.energy_full, n);
    }
    if shows(supply.charge_full, n) {
        lemma_shown(supply.charge_full, n);
    }
    if shows(supply.voltage_now, volts) {
        lemma_shown(supply.voltage_now, volts);
    }
    if supply.energy_full is None && supply.charge_full is None {
        assert(0 * crate::energy::or_zero(trimmed_number(supply.voltage_now)) == 0)
            by (nonlinear_arith);
    }
}

/// A battery that is discharged gives its power, else its current at its voltage; any
/// other gives nothing.
pub proof fn lemma_discharge(supply: PowerSupply, n: u64, volts: u64)
    ensures
        !reads(supply.status, "Discharging"@) ==> supply.discharge() == 0,
        reads(supply.status, "Discharging"@) && shows(supply.power_now, n) ==> supply.discharge()
            == n * 1_000_000,
        reads(supply.status, "Discharging"@) && supply.power_now is None && shows(
            supply.current_now,
            n,
        ) && shows(supply.voltage_now, volts) ==> supply.discharge() == n * volts,
{
    if shows(supply.power_now, n) {
        lemma_shown(supply.power_now, n);
    }
    if shows(supply.current_now, n) {
        lemma_shown(supply.current_now, n);
    }
    if shows(supply.voltage_now, volts) {
        lemma_shown(supply.voltage_now, volts);
    }
}

/// Batteries add up; other supplies do not count.
pub proof fn lemma_batteries(supplies: Seq<PowerSupply>, supply: PowerSupply)
    ensures
        batteries_of(Seq::empty()) == (0nat, 0nat),
        !(supply.kind is Some && trim(supply.kind->0@) == "Battery"@) ==> batteries_of(
            supplies.push(supply),
        ) == batteries_of(supplies),
        supply.kind is Some && trim(supply.kind->0@) == "Battery"@ && batteries_of(supplies).0
            + supply.full() <= u128::MAX ==> batteries_of(supplies.push(supply)).0 == batteries_of(
            supplies,
        ).0 + supply.full(),
        supply.kind is Some && trim(supply.kind->0@) == "Battery"@ && batteries_of(supplies).1
            + supply.discharge() <= u64::MAX ==> batteries_of(supplies.push(supply)).1
            == batteries_of(supplies).1 + supply.discharge(),
{
    assert(supplies.push(supply).drop_last() =~= supplies);
}

/// What a zone's counter rose by since the last sample; a new zone has not counted
/// yet.
pub open spec fn rise(previous: Map<Seq<char>, (u64, u64)>) -> spec_fn(Seq<char>, (u64, u64)) -> nat {
    |zone: Seq<char>, reading: (u64, u64)|
        if !previous.contains_key(zone) {
            0nat
        } else if previous[zone].0 <= reading.0 {
            (reading.0 - previous[zone].0) as nat
        } else if previous[zone].0 <= reading.1 {
            fitting(reading.1 - previous[zone].0 + reading.0) as nat
        } else {
            reading.0 as nat
        }
}

/// The processors' counters go before the batteries, and the batteries before
/// nothing; the energy of the batteries is always given.
pub proof fn lemma_sources(
    previous: Map<Seq<char>, (u64, u64)>,
    current: Map<Seq<char>, (u64, u64)>,
    battery: BatterySample,
    nanoseconds: u64,
)
    ensures
        ({
            let sample = energy_sample(previous, current, battery, nanoseconds);
            let counted = map_total(current, rise(previous));
            &&& sample.microjoules == fitting(counted as int)
            &&& counted > 0 ==> sample.source == "rapl" && sample.discharge_picowatts == 0
            &&& counted == 0 && nanoseconds > 0 && battery.discharge_picowatts > 0 ==> sample.source
                == "battery" && sample.discharge_picowatts == battery.discharge_picowatts
            &&& counted == 0 && (nanoseconds == 0 || battery.discharge_picowatts == 0)
                ==> sample.source == "unavailable" && sample.discharge_picowatts == 0
            &&& sample.battery_full_picowatt_hours == battery.full_picowatt_hours
        }),
{
    let spelled = crate::energy::zone_increase(previous);
    assert forall|zone: Seq<char>, reading: (u64, u64)| #[trigger] spelled(zone, reading) == rise(
        previous,
    )(zone, reading) by {
        if previous.contains_key(zone) {
            lemma_rolled(previous[zone].0, reading.0, reading.1);
        }
    }
    assert(spelled =~= rise(previous));
}

} // verus!

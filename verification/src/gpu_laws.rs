//! What the descriptions of open graphics devices say of a process.

use vstd::prelude::*;
use crate::counter_laws::fitting;
use crate::gpu::{
    client_in, drm_field, drm_metrics, drm_value, gpu_client_in, is_gpu_usage, lists_engine,
    quantity_in, seen_before, GpuClient, GpuProcessStat, Quantity,
};
use crate::splitting_laws::{
    is_free_of, lemma_decimal_digits, lemma_parse_decimal, lemma_split_once,
};
use crate::table::map_total;
use crate::text::{decimal, is_white_space, lines, starts_with, trim, words};
use crate::text_laws::{lemma_endings, lemma_one_word, lemma_words_joined};

verus! {

// ---------------------------------------------------------------------
// Quantities

proof fn lemma_amount(n: u64, unit: Seq<char>)
    requires
        unit.len() > 0,
        forall|i: int| 0 <= i < unit.len() ==> !is_white_space(#[trigger] unit[i]),
    ensures
        words(decimal(n as nat) + seq![' '] + unit) == seq![decimal(n as nat), unit],
        words(decimal(n as nat)) == seq![decimal(n as nat)],
        crate::key_values::number_in(decimal(n as nat)) == Some(n),
{
    let d = decimal(n as nat);
    lemma_decimal_digits(n as nat);
    assert forall|i: int| 0 <= i < d.len() implies !is_white_space(#[trigger] d[i]) by {
        assert(crate::text::is_ascii_digit(d[i]));
    }
    lemma_one_word(d);
    lemma_one_word(unit);
    lemma_words_joined(d, ' ', unit);
    assert(seq![d] + seq![unit] =~= seq![d, unit]);
    lemma_parse_decimal(n as nat, u64::MAX as nat);
}

proof fn lemma_bare(quantity: Quantity, n: u64)
    ensures
        quantity_in(quantity, decimal(n as nat)) == Some(n),
{
    reveal_strlit("B");
    lemma_amount(n, "B"@);
    let list = words(decimal(n as nat));
    assert(list.len() == 1);
    assert(n * 1 == n);
}

/// The text is this number and this unit, and in the library's own unit it is so much.
pub open spec fn measures(quantity: Quantity, n: u64, unit: Seq<char>, size: int) -> bool {
    quantity_in(quantity, decimal(n as nat) + seq![' '] + unit) == (if n * size <= u64::MAX {
        Some((n * size) as u64)
    } else {
        None::<u64>
    })
}

/// Times are in nanoseconds, microseconds or milliseconds.
pub proof fn lemma_times(n: u64)
    ensures
        quantity_in(Quantity::Time, decimal(n as nat)) == Some(n),
        measures(Quantity::Time, n, "ns"@, 1),
        measures(Quantity::Time, n, "us"@, 1_000),
        measures(Quantity::Time, n, "ms"@, 1_000_000),
{
    reveal_strlit("ns");
    reveal_strlit("us");
    reveal_strlit("ms");
    assert("ns"@[0] == 'n' && "us"@[0] == 'u' && "ms"@[0] == 'm');
    lemma_amount(n, "ns"@);
    lemma_bare(Quantity::Time, n);
    lemma_amount(n, "us"@);
    lemma_amount(n, "ms"@);
}

/// Memory is in bytes, in thousands and millions of them, or in powers of 1024.
pub proof fn lemma_sizes(n: u64)
    ensures
        quantity_in(Quantity::Memory, decimal(n as nat)) == Some(n),
        measures(Quantity::Memory, n, "B"@, 1),
        measures(Quantity::Memory, n, "kB"@, 1_000),
        measures(Quantity::Memory, n, "KiB"@, 1_024),
        measures(Quantity::Memory, n, "MB"@, 1_000_000),
        measures(Quantity::Memory, n, "MiB"@, 1_048_576),
        measures(Quantity::Memory, n, "GB"@, 1_000_000_000),
        measures(Quantity::Memory, n, "GiB"@, 1_073_741_824),
{
    reveal_strlit("B");
    reveal_strlit("kB");
    reveal_strlit("KiB");
    reveal_strlit("MB");
    reveal_strlit("MiB");
    reveal_strlit("GB");
    reveal_strlit("GiB");
    assert("kB"@[0] == 'k' && "MB"@[0] == 'M' && "GB"@[0] == 'G');
    assert("KiB"@[0] == 'K' && "MiB"@[0] == 'M' && "GiB"@[0] == 'G');
    lemma_amount(n, "B"@);
    lemma_bare(Quantity::Memory, n);
    lemma_amount(n, "kB"@);
    lemma_amount(n, "KiB"@);
    lemma_amount(n, "MB"@);
    lemma_amount(n, "MiB"@);
    lemma_amount(n, "GB"@);
    lemma_amount(n, "GiB"@);
}

/// Any other unit is not understood.
pub proof fn lemma_unknown_unit(quantity: Quantity, n: u64, unit: Seq<char>)
    requires
        unit.len() > 0,
        forall|i: int| 0 <= i < unit.len() ==> !is_white_space(#[trigger] unit[i]),
        quantity is Time ==> unit != "ns"@ && unit != "us"@ && unit != "ms"@,
        quantity is Memory ==> unit != "B"@ && unit != "kB"@ && unit != "KiB"@ && unit != "MB"@
            && unit != "MiB"@ && unit != "GB"@ && unit != "GiB"@,
    ensures
        quantity_in(quantity, decimal(n as nat) + seq![' '] + unit) is None,
{
    lemma_amount(n, unit);
}

// ---------------------------------------------------------------------
// Descriptions

/// A line gives a key and, behind a colon, its value.
pub proof fn lemma_field(key: Seq<char>, value: Seq<char>)
    requires
        is_free_of(key, ':'),
    ensures
        drm_field(key + seq![':'] + value) == Some((trim(key), trim(value))),
        drm_field(key) is None,
{
    lemma_split_once(key, ':', value);
}

/// The last line with a key gives its value.
pub proof fn lemma_value(list: Seq<Seq<char>>, line: Seq<char>, key: Seq<char>)
    ensures
        drm_value(Seq::empty(), key) is None,
        match drm_field(line) {
            Some((k, value)) => if k == key {
                drm_value(list.push(line), key) == Some(value)
            } else {
                drm_value(list.push(line), key) == drm_value(list, key)
            },
            None => drm_value(list.push(line), key) == drm_value(list, key),
        },
{
    assert(list.push(line).drop_last() =~= list);
}

/// A line whose key begins so gives a quantity under the rest of the key; every other
/// line gives none.
pub proof fn lemma_metric(
    list: Seq<Seq<char>>,
    line: Seq<char>,
    prefix: Seq<char>,
    quantity: Quantity,
    name: Seq<char>,
    n: u64,
)
    ensures
        drm_metrics(Seq::empty(), prefix, quantity) == Map::<Seq<char>, u64>::empty(),
        match drm_field(line) {
            Some((key, value)) => {
                &&& key == prefix + name && quantity_in(quantity, value) == Some(n)
                    ==> drm_metrics(list.push(line), prefix, quantity) == drm_metrics(
                    list,
                    prefix,
                    quantity,
                ).insert(name, n)
                &&& !starts_with(key, prefix) || quantity_in(quantity, value) is None
                    ==> drm_metrics(list.push(line), prefix, quantity) == drm_metrics(
                    list,
                    prefix,
                    quantity,
                )
            },
            None => drm_metrics(list.push(line), prefix, quantity) == drm_metrics(
                list,
                prefix,
                quantity,
            ),
        },
{
    lemma_endings(name, prefix);
    assert(list.push(line).drop_last() =~= list);
}

/// A description without a client's number says nothing; nor does one without any
/// quantity.
pub proof fn lemma_no_client(text: Seq<char>)
    ensures
        drm_value(lines(text), "drm-client-id"@) is None ==> gpu_client_in(text) is None,
        drm_metrics(lines(text), "drm-engine-"@, Quantity::Time) == Map::<Seq<char>, u64>::empty()
            && drm_metrics(lines(text), "drm-resident-"@, Quantity::Memory) == Map::<
            Seq<char>,
            u64,
        >::empty() && drm_metrics(lines(text), "drm-memory-"@, Quantity::Memory) == Map::<
            Seq<char>,
            u64,
        >::empty() ==> gpu_client_in(text) is None,
{
}

/// A client is told by its device, or else its driver, and its number. Its engines'
/// times, its resident memory and its allocated memory stand under keys of their own.
pub proof fn lemma_client(text: Seq<char>, number: Seq<char>, name: Seq<char>, n: u64)
    requires
        drm_value(lines(text), "drm-client-id"@) == Some(number),
        drm_metrics(lines(text), "drm-engine-"@, Quantity::Time).contains_key(name) || drm_metrics(
            lines(text),
            "drm-resident-"@,
            Quantity::Memory,
        ).contains_key(name) || drm_metrics(
            lines(text),
            "drm-memory-"@,
            Quantity::Memory,
        ).contains_key(name),
    ensures
        match gpu_client_in(text) {
            Some((id, client)) => {
                &&& drm_value(lines(text), "drm-pdev"@) is Some ==> id == drm_value(
                    lines(text),
                    "drm-pdev"@,
                )->0 + "/"@ + number
                &&& drm_value(lines(text), "drm-pdev"@) is None && drm_value(
                    lines(text),
                    "drm-driver"@,
                ) is Some ==> id == drm_value(lines(text), "drm-driver"@)->0 + "/"@ + number
                &&& drm_value(lines(text), "drm-pdev"@) is None && drm_value(
                    lines(text),
                    "drm-driver"@,
                ) is None ==> id == "unknown/"@ + number
                &&& client.engines == drm_metrics(lines(text), "drm-engine-"@, Quantity::Time)
                &&& client.resident == drm_metrics(lines(text), "drm-resident-"@, Quantity::Memory)
                &&& client.allocated == drm_metrics(lines(text), "drm-memory-"@, Quantity::Memory)
            },
            None => false,
        },
{
    reveal_strlit("unknown");
    reveal_strlit("/");
    reveal_strlit("unknown/");
    assert("unknown"@ + "/"@ =~= "unknown/"@);
}

/// Of two sights of a client every counter and region has the larger value.
pub proof fn lemma_sights(a: GpuClient, b: GpuClient, name: Seq<char>)
    ensures
        ({
            let both = a.merge(b);
            &&& both.engines.contains_key(name) == (a.engines.contains_key(name)
                || b.engines.contains_key(name))
            &&& a.engines.contains_key(name) ==> both.engines[name] >= a.engines[name]
            &&& b.engines.contains_key(name) ==> both.engines[name] >= b.engines[name]
            &&& both.engines.contains_key(name) ==> (a.engines.contains_key(name)
                && both.engines[name] == a.engines[name]) || (b.engines.contains_key(name)
                && both.engines[name] == b.engines[name])
            &&& a.resident.contains_key(name) ==> both.resident[name] >= a.resident[name]
            &&& b.resident.contains_key(name) ==> both.resident[name] >= b.resident[name]
            &&& both.resident.contains_key(name) ==> (a.resident.contains_key(name)
                && both.resident[name] == a.resident[name]) || (b.resident.contains_key(name)
                && both.resident[name] == b.resident[name])
            &&& a.allocated.contains_key(name) ==> both.allocated[name] >= a.allocated[name]
            &&& b.allocated.contains_key(name) ==> both.allocated[name] >= b.allocated[name]
            &&& both.allocated.contains_key(name) ==> (a.allocated.contains_key(name)
                && both.allocated[name] == a.allocated[name]) || (b.allocated.contains_key(name)
                && both.allocated[name] == b.allocated[name])
        }),
{
}

/// A client that two files of a process describe is one client.
pub proof fn lemma_described_twice(
    files: Seq<Seq<char>>,
    text: Seq<char>,
    id: Seq<char>,
    client: GpuClient,
)
    requires
        gpu_client_in(text) == Some((id, client)),
    ensures
        client_in(files, id) is None ==> client_in(files.push(text), id) == Some(client),
        client_in(files, id) is Some ==> client_in(files.push(text), id) == Some(
            client_in(files, id)->0.merge(client),
        ),
        forall|other: Seq<char>|
            other != id ==> #[trigger] client_in(files.push(text), other) == client_in(files, other),
{
    assert(files.push(text).drop_last() =~= files);
}

// ---------------------------------------------------------------------
// Processes

/// What all regions of a client take up.
pub open spec fn taken_up() -> spec_fn(Seq<char>, u64) -> nat {
    |region: Seq<char>, bytes: u64| bytes as nat
}

/// The one client of a process counts for it, unless a process before it has the client
/// open too.
pub proof fn lemma_own_client(
    processes: Seq<Seq<Seq<char>>>,
    i: int,
    stat: GpuProcessStat,
    id: Seq<char>,
    engine: Seq<char>,
    n: u64,
)
    requires
        0 <= i < processes.len(),
        is_gpu_usage(processes, i, stat),
        forall|other: Seq<char>| #[trigger]
            client_in(processes[i], other) is Some == (other == id),
    ensures
        ({
            let client = client_in(processes[i], id)->0;
            &&& seen_before(processes, i, id) ==> stat.resident_memory_bytes == 0
                && stat.allocated_memory_bytes == 0 && !lists_engine(stat.engines@, id, engine, n)
            &&& !seen_before(processes, i, id) ==> {
                &&& stat.resident_memory_bytes == fitting(
                    map_total(client.resident, taken_up()) as int,
                )
                &&& stat.allocated_memory_bytes == fitting(
                    map_total(client.allocated, taken_up()) as int,
                )
                &&& lists_engine(stat.engines@, id, engine, n) == (client.engines.contains_key(
                    engine,
                ) && client.engines[engine] == n)
            }
        }),
{
    let clients = crate::gpu::clients_of(processes[i]);
    let client = client_in(processes[i], id)->0;
    assert(client_in(processes[i], id) is Some);
    assert(clients =~= Map::<Seq<char>, GpuClient>::empty().insert(id, client)) by {
        assert forall|other: Seq<char>| clients.contains_key(other) == (other == id) by {
            assert(client_in(processes[i], other) is Some == (other == id));
        }
    }
    lemma_single(id, client, crate::gpu::own_memory(processes, i, true));
    lemma_single(id, client, crate::gpu::own_memory(processes, i, false));
    assert(crate::gpu::region_size() =~= taken_up());
}

proof fn lemma_single(id: Seq<char>, client: GpuClient, f: spec_fn(Seq<char>, GpuClient) -> nat)
    ensures
        map_total(Map::<Seq<char>, GpuClient>::empty().insert(id, client), f) == f(id, client),
{
    let m = Map::<Seq<char>, GpuClient>::empty().insert(id, client);
    assert(m.dom().finite());
    assert(m.contains_key(id));
    crate::table::lemma_total_remove(m, id, f);
    assert(m.remove(id) =~= Map::<Seq<char>, GpuClient>::empty());
    assert(m.remove(id).dom() =~= Set::<Seq<char>>::empty());
    assert(map_total(m.remove(id), f) == 0);
}

} // verus!

//! GPU clients as the kernel describes them beside a process's open files.

use vstd::prelude::*;
use crate::key_values::{number, number_in};
use crate::metrics::{add_counter, capped};
use crate::table::{
    lemma_map_of, lemma_total_pairs, lemma_total_same, map_of, map_total, of_entry, seq_sum, Table,
};
use crate::text::{
    append, append_text, chars_of, copy_range, lines, pieces, same_chars, split_at_first,
    split_lines, split_once, split_words, string_of, strip_prefix, texts, trim, trim_chars,
    without_prefix, words,
};

verus! {

/// How a number and its unit are read.
#[derive(Debug, Clone, Copy, PartialEq, Eq, Structural)]
pub enum Quantity {
    /// In nanoseconds.
    Time,
    /// In bytes.
    Memory,
}

/// How many nanoseconds or bytes a unit stands for.
pub open spec fn unit_size(quantity: Quantity, unit: Seq<char>) -> Option<u64> {
    match quantity {
        Quantity::Time => if unit == "ns"@ {
            Some(1)
        } else if unit == "us"@ {
            Some(1_000)
        } else if unit == "ms"@ {
            Some(1_000_000)
        } else {
            None
        },
        Quantity::Memory => if unit == "B"@ {
            Some(1)
        } else if unit == "kB"@ {
            Some(1_000)
        } else if unit == "KiB"@ {
            Some(1_024)
        } else if unit == "MB"@ {
            Some(1_000_000)
        } else if unit == "MiB"@ {
            Some(1_048_576)
        } else if unit == "GB"@ {
            Some(1_000_000_000)
        } else if unit == "GiB"@ {
            Some(1_073_741_824)
        } else {
            None
        },
    }
}

/// The quantity that a text writes down: a number and a unit, which may be left
/// out for nanoseconds and bytes.
pub open spec fn quantity_in(quantity: Quantity, text: Seq<char>) -> Option<u64> {
    let list = words(text);
    let amount = if list.len() > 0 {
        number_in(list[0])
    } else {
        None
    };
    let size = if list.len() > 1 {
        unit_size(quantity, list[1])
    } else {
        Some(1)
    };
    if amount is Some && size is Some && amount->0 * size->0 <= u64::MAX {
        Some((amount->0 * size->0) as u64)
    } else {
        None
    }
}

fn is_text(s: &[char], word: &str) -> (yes: bool)
    ensures
        yes == (s@ == word@),
{
    let word = chars_of(word);
    same_chars(s, word.as_slice())
}

fn size_of_unit(quantity: Quantity, unit: &[char]) -> (size: Option<u64>)
    ensures
        size == unit_size(quantity, unit@),
{
    match quantity {
        Quantity::Time => if is_text(unit, "ns") {
            Some(1)
        } else if is_text(unit, "us") {
            Some(1_000)
        } else if is_text(unit, "ms") {
            Some(1_000_000)
        } else {
            None
        },
        Quantity::Memory => if is_text(unit, "B") {
            Some(1)
        } else if is_text(unit, "kB") {
            Some(1_000)
        } else if is_text(unit, "KiB") {
            Some(1_024)
        } else if is_text(unit, "MB") {
            Some(1_000_000)
        } else if is_text(unit, "MiB") {
            Some(1_048_576)
        } else if is_text(unit, "GB") {
            Some(1_000_000_000)
        } else if is_text(unit, "GiB") {
            Some(1_073_741_824)
        } else {
            None
        },
    }
}

/// Reads a duration or an amount of memory.
pub fn parse_quantity(quantity: Quantity, text: &[char]) -> (value: Option<u64>)
    ensures
        value == quantity_in(quantity, text@),
{
    let list = split_words(text);
    if list.len() == 0 {
        return None;
    }
    assert(pieces(list@)[0] == list@[0]@);
    let amount = match number(list[0].as_slice()) {
        Some(n) => n,
        None => {
            return None;
        },
    };
    let size = if list.len() > 1 {
        assert(pieces(list@)[1] == list@[1]@);
        match size_of_unit(quantity, list[1].as_slice()) {
            Some(n) => n,
            None => {
                return None;
            },
        }
    } else {
        1
    };
    amount.checked_mul(size)
}

/// A key and its value on a line of the description.
pub open spec fn drm_field(line: Seq<char>) -> Option<(Seq<char>, Seq<char>)> {
    match split_once(line, ':') {
        Some((key, value)) => Some((trim(key), trim(value))),
        None => None,
    }
}

/// The value that the last line with this key gives.
pub open spec fn drm_value(list: Seq<Seq<char>>, key: Seq<char>) -> Option<Seq<char>>
    decreases list.len(),
{
    if list.len() == 0 {
        None
    } else {
        match drm_field(list.last()) {
            Some((k, value)) if k == key => Some(value),
            _ => drm_value(list.drop_last(), key),
        }
    }
}

/// The quantities whose keys start with `prefix`, by the rest of their keys.
pub open spec fn drm_metrics(
    list: Seq<Seq<char>>,
    prefix: Seq<char>,
    quantity: Quantity,
) -> Map<Seq<char>, u64>
    decreases list.len(),
{
    if list.len() == 0 {
        Map::empty()
    } else {
        let before = drm_metrics(list.drop_last(), prefix, quantity);
        match drm_field(list.last()) {
            None => before,
            Some((key, value)) => match strip_prefix(key, prefix) {
                None => before,
                Some(name) => match quantity_in(quantity, value) {
                    Some(n) => before.insert(name, n),
                    None => before,
                },
            },
        }
    }
}

/// What a GPU client did and holds.
pub struct GpuClientStat {
    pub engine_nanoseconds: Table<String, u64>,
    pub resident_regions: Table<String, u64>,
    pub allocated_regions: Table<String, u64>,
}

/// What [`GpuClientStat`] stands for.
#[verifier::ext_equal]
pub struct GpuClient {
    pub engines: Map<Seq<char>, u64>,
    pub resident: Map<Seq<char>, u64>,
    pub allocated: Map<Seq<char>, u64>,
}

/// Two sights of one counter or region: the larger value.
pub open spec fn merged_max(a: Map<Seq<char>, u64>, b: Map<Seq<char>, u64>) -> Map<Seq<char>, u64> {
    Map::new(
        |name: Seq<char>| a.contains_key(name) || b.contains_key(name),
        |name: Seq<char>|
            if a.contains_key(name) && (!b.contains_key(name) || a[name] >= b[name]) {
                a[name]
            } else {
                b[name]
            },
    )
}

impl GpuClient {
    pub open spec fn merge(self, other: Self) -> Self {
        GpuClient {
            engines: merged_max(self.engines, other.engines),
            resident: merged_max(self.resident, other.resident),
            allocated: merged_max(self.allocated, other.allocated),
        }
    }

    pub open spec fn is_idle(self) -> bool {
        self.engines =~= Map::empty() && self.resident =~= Map::empty() && self.allocated
            =~= Map::empty()
    }
}

impl View for GpuClientStat {
    type V = GpuClient;

    open spec fn view(&self) -> GpuClient {
        GpuClient {
            engines: self.engine_nanoseconds@,
            resident: self.resident_regions@,
            allocated: self.allocated_regions@,
        }
    }
}

/// The client that a description speaks of, and what it says. A client that
/// shows no quantity is passed over.
pub open spec fn gpu_client_in(text: Seq<char>) -> Option<(Seq<char>, GpuClient)> {
    let list = lines(text);
    let device = match drm_value(list, "drm-pdev"@) {
        Some(value) => value,
        None => match drm_value(list, "drm-driver"@) {
            Some(value) => value,
            None => "unknown"@,
        },
    };
    let client = GpuClient {
        engines: drm_metrics(list, "drm-engine-"@, Quantity::Time),
        resident: drm_metrics(list, "drm-resident-"@, Quantity::Memory),
        allocated: drm_metrics(list, "drm-memory-"@, Quantity::Memory),
    };
    match drm_value(list, "drm-client-id"@) {
        Some(id) if !client.is_idle() => Some((device + "/"@ + id, client)),
        _ => None,
    }
}

fn read_field(line: &[char]) -> (field: Option<(&[char], &[char])>)
    ensures
        match field {
            Some((k, v)) => drm_field(line@) == Some((k@, v@)),
            None => drm_field(line@) is None,
        },
{
    match split_at_first(line, ':') {
        Some((key, value)) => Some((trim_chars(key), trim_chars(value))),
        None => None,
    }
}

fn read_value(list: &Vec<Vec<char>>, key: &str) -> (value: Option<Vec<char>>)
    ensures
        match value {
            Some(v) => drm_value(pieces(list@), key@) == Some(v@),
            None => drm_value(pieces(list@), key@) is None,
        },
{
    let ghost all = pieces(list@);
    let mut count = list.len();
    assert(all.take(count as int) =~= all);
    while count > 0
        invariant
            count <= list@.len(),
            all == pieces(list@),
            drm_value(all, key@) == drm_value(all.take(count as int), key@),
        decreases count,
    {
        proof {
            assert(all.take(count as int).drop_last() =~= all.take(count - 1));
            assert(all.take(count as int).last() == list@[count - 1]@);
        }
        if let Some((k, value)) = read_field(list[count - 1].as_slice()) {
            if is_text(k, key) {
                let length = value.len();
                let copy = copy_range(value, 0, length);
                assert(copy@ =~= value@);
                return Some(copy);
            }
        }
        count = count - 1;
    }
    None
}

fn read_metrics(list: &Vec<Vec<char>>, prefix: &str, quantity: Quantity) -> (metrics: Table<
    String,
    u64,
>)
    ensures
        metrics.wf(),
        metrics@ == drm_metrics(pieces(list@), prefix@, quantity),
{
    let ghost all = pieces(list@);
    let mut metrics: Table<String, u64> = Table::new();
    for i in 0..list.len()
        invariant
            all == pieces(list@),
            metrics.wf(),
            metrics@ == drm_metrics(all.take(i as int), prefix@, quantity),
    {
        proof {
            assert(all.take(i + 1).drop_last() =~= all.take(i as int));
            assert(all.take(i + 1).last() == list@[i as int]@);
        }
        if let Some((key, value)) = read_field(list[i].as_slice()) {
            if let Some(name) = without_prefix(key, prefix) {
                if let Some(n) = parse_quantity(quantity, value) {
                    let _ = metrics.insert(string_of(name), n);
                }
            }
        }
    }
    assert(all.take(all.len() as int) =~= all);
    metrics
}

/// Puts the larger of two values under each name.
fn merge_max(target: &mut Table<String, u64>, source: &Table<String, u64>)
    requires
        old(target).wf(),
        source.wf(),
    ensures
        final(target).wf(),
        final(target)@ == merged_max(old(target)@, source@),
{
    let ghost before = target@;
    assert(map_of(source.pairs().take(0)) =~= Map::empty());
    assert(before =~= merged_max(before, map_of(source.pairs().take(0))));
    let count = source.len();
    for i in 0..count
        invariant
            count == source.pairs().len(),
            source.wf(),
            target.wf(),
            target@ == merged_max(before, map_of(source.pairs().take(i as int))),
    {
        let ghost taken = source.pairs().take(i as int);
        let ghost next = source.pairs().take(i + 1);
        proof {
            assert(next.drop_last() =~= taken);
            lemma_map_of(taken);
        }
        let name = source.key_at(i).clone();
        let value = *source.value_at(i);
        proof {
            assert(!map_of(taken).contains_key(name@)) by {
                if map_of(taken).contains_key(name@) {
                    let j = choose|j: int| 0 <= j < taken.len() && (#[trigger] taken[j]).0@ == name@;
                    assert(source.pairs()[j].0@ != source.pairs()[i as int].0@);
                }
            }
        }
        let merged = match target.get(&name) {
            Some(known) => if *known >= value {
                *known
            } else {
                value
            },
            None => value,
        };
        let _ = target.insert(name, merged);
        assert(target@ =~= merged_max(before, map_of(next)));
    }
    assert(source.pairs().take(source.pairs().len() as int) =~= source.pairs());
}

/// The sum of the values under all names.
pub open spec fn region_total(regions: Map<Seq<char>, u64>) -> u64 {
    capped(map_total(regions, region_size()))
}

pub open spec fn region_size() -> spec_fn(Seq<char>, u64) -> nat {
    |name: Seq<char>, bytes: u64| bytes as nat
}

fn total_regions(regions: &Table<String, u64>) -> (total: u64)
    requires
        regions.wf(),
    ensures
        total == region_total(regions@),
{
    let ghost of_pair = of_entry::<String, u64>(region_size());
    let mut total: u64 = 0;
    let count = regions.len();
    for i in 0..count
        invariant
            count == regions.pairs().len(),
            of_pair == of_entry::<String, u64>(region_size()),
            total == capped(seq_sum(regions.pairs().take(i as int), of_pair)),
    {
        assert(regions.pairs().take(i + 1).drop_last() =~= regions.pairs().take(i as int));
        add_counter(&mut total, *regions.value_at(i));
    }
    proof {
        assert(regions.pairs().take(count as int) =~= regions.pairs());
        lemma_total_pairs(regions.pairs(), region_size());
    }
    total
}

impl GpuClientStat {
    pub open spec fn wf(&self) -> bool {
        self.engine_nanoseconds.wf() && self.resident_regions.wf() && self.allocated_regions.wf()
    }

    pub fn merge(&mut self, other: &Self)
        requires
            old(self).wf(),
            other.wf(),
        ensures
            final(self).wf(),
            final(self)@ == old(self)@.merge(other@),
    {
        merge_max(&mut self.engine_nanoseconds, &other.engine_nanoseconds);
        merge_max(&mut self.resident_regions, &other.resident_regions);
        merge_max(&mut self.allocated_regions, &other.allocated_regions);
    }

    pub fn is_empty(&self) -> (yes: bool)
        requires
            self.wf(),
        ensures
            yes == self@.is_idle(),
    {
        proof {
            lemma_empty(&self.engine_nanoseconds);
            lemma_empty(&self.resident_regions);
            lemma_empty(&self.allocated_regions);
        }
        self.engine_nanoseconds.len() == 0 && self.resident_regions.len() == 0
            && self.allocated_regions.len() == 0
    }
}

proof fn lemma_empty(table: &Table<String, u64>)
    requires
        table.wf(),
    ensures
        (table.pairs().len() == 0) == (table@ =~= Map::empty()),
{
    if table.pairs().len() > 0 {
        lemma_map_of(table.pairs());
        assert(table@.contains_key(table.pairs()[0].0@));
    } else {
        assert(table@ =~= Map::empty());
    }
}

/// Reads the description of one open file.
pub fn parse_gpu_fdinfo(value: &str) -> (client: Option<(String, GpuClientStat)>)
    ensures
        match client {
            Some((id, stat)) => stat.wf() && gpu_client_in(value@) == Some((id@, stat@)),
            None => gpu_client_in(value@) is None,
        },
{
    let chars = chars_of(value);
    let list = split_lines(chars.as_slice());
    let id = match read_value(&list, "drm-client-id") {
        Some(id) => id,
        None => {
            return None;
        },
    };
    let mut key = match read_value(&list, "drm-pdev") {
        Some(device) => device,
        None => match read_value(&list, "drm-driver") {
            Some(driver) => driver,
            None => chars_of("unknown"),
        },
    };
    append_text(&mut key, "/");
    append(&mut key, id.as_slice());
    let client = GpuClientStat {
        engine_nanoseconds: read_metrics(&list, "drm-engine-", Quantity::Time),
        resident_regions: read_metrics(&list, "drm-resident-", Quantity::Memory),
        allocated_regions: read_metrics(&list, "drm-memory-", Quantity::Memory),
    };
    if client.is_empty() {
        None
    } else {
        Some((string_of(key.as_slice()), client))
    }
}

/// What the descriptions of several open files together say of one client: a
/// client that is open more than once counts once.
pub open spec fn client_in(files: Seq<Seq<char>>, id: Seq<char>) -> Option<GpuClient>
    decreases files.len(),
{
    if files.len() == 0 {
        None
    } else {
        let before = client_in(files.drop_last(), id);
        match gpu_client_in(files.last()) {
            Some((key, client)) if key == id => match before {
                Some(known) => Some(known.merge(client)),
                None => Some(client),
            },
            _ => before,
        }
    }
}

/// The table holds exactly the clients of the descriptions.
pub open spec fn holds_clients(
    clients: Table<String, GpuClientStat>,
    files: Seq<Seq<char>>,
) -> bool {
    &&& clients.wf()
    &&& forall|id: Seq<char>| #[trigger]
        clients@.contains_key(id) == (client_in(files, id) is Some)
    &&& forall|id: Seq<char>| #[trigger]
        clients@.contains_key(id) ==> clients@[id].wf() && client_in(files, id) == Some(
            clients@[id]@,
        )
}

/// The clients that a process has open, by their descriptions.
pub fn gpu_clients(files: &Vec<String>) -> (clients: Table<String, GpuClientStat>)
    ensures
        holds_clients(clients, texts(files@)),
{
    let ghost all = texts(files@);
    let mut clients: Table<String, GpuClientStat> = Table::new();
    for i in 0..files.len()
        invariant
            all == texts(files@),
            holds_clients(clients, all.take(i as int)),
    {
        let ghost before = clients@;
        let ghost earlier = all.take(i as int);
        let ghost now = all.take(i + 1);
        proof {
            assert(now.drop_last() =~= earlier);
            assert(now.last() == files@[i as int]@);
        }
        if let Some((id, client)) = parse_gpu_fdinfo(files[i].as_str()) {
            let ghost key = id@;
            assert(before.contains_key(key) == (client_in(earlier, key) is Some));
            let merged = match clients.remove(&id) {
                Some(mut known) => {
                    known.merge(&client);
                    known
                },
                None => client,
            };
            assert(client_in(now, key) == Some(merged@));
            let _ = clients.insert(id, merged);
            proof {
                assert forall|other: Seq<char>| #[trigger]
                    clients@.contains_key(other) implies clients@[other].wf() && client_in(
                    now,
                    other,
                ) == Some(clients@[other]@) by {
                    if other != key {
                        assert(before.contains_key(other));
                    }
                }
                assert forall|other: Seq<char>| #[trigger]
                    clients@.contains_key(other) == (client_in(now, other) is Some) by {
                    assert(before.contains_key(other) == (client_in(earlier, other) is Some));
                }
            }
        } else {
            proof {
                assert forall|other: Seq<char>| client_in(now, other) == client_in(
                    earlier,
                    other,
                ) by {}
            }
        }
    }
    assert(all.take(all.len() as int) =~= all);
    clients
}

/// How long one engine of the GPU worked for a client.
#[derive(Debug)]
pub struct EngineTime {
    pub client: String,
    pub engine: String,
    pub nanoseconds: u64,
}

/// The GPU usage of a process since its clients were opened.
#[derive(Debug)]
pub struct GpuProcessStat {
    pub engines: Vec<EngineTime>,
    pub resident_memory_bytes: u64,
    pub allocated_memory_bytes: u64,
}

/// A client that counts for this process: not one that counts for another.
pub open spec fn counts_client(
    clients: Map<Seq<char>, GpuClientStat>,
    elsewhere: Seq<Seq<char>>,
    id: Seq<char>,
) -> bool {
    clients.contains_key(id) && !elsewhere.contains(id)
}

/// The engine times list this engine of this client with this time.
pub open spec fn lists_engine(
    engines: Seq<EngineTime>,
    client: Seq<char>,
    engine: Seq<char>,
    nanoseconds: u64,
) -> bool {
    exists|i: int|
        0 <= i < engines.len() && (#[trigger] engines[i]).client@ == client
            && engines[i].engine@ == engine && engines[i].nanoseconds == nanoseconds
}

/// No engine of a client stands in the list twice.
pub open spec fn distinct_engines(engines: Seq<EngineTime>) -> bool {
    forall|i: int, j: int|
        0 <= i < j < engines.len() ==> (#[trigger] engines[i]).client@ != (
        #[trigger] engines[j]).client@ || engines[i].engine@ != engines[j].engine@
}

/// The resident or allocated memory of one client, if it counts.
pub open spec fn client_memory(elsewhere: Seq<Seq<char>>, resident: bool) -> spec_fn(
    Seq<char>,
    GpuClientStat,
) -> nat {
    |id: Seq<char>, client: GpuClientStat|
        if elsewhere.contains(id) {
            0
        } else if resident {
            region_total(client.resident_regions@) as nat
        } else {
            region_total(client.allocated_regions@) as nat
        }
}

fn lists_text(list: &Vec<String>, text: &String) -> (yes: bool)
    ensures
        yes == texts(list@).contains(text@),
{
    for i in 0..list.len()
        invariant
            forall|j: int| 0 <= j < i ==> texts(list@)[j] != text@,
    {
        assert(texts(list@)[i as int] == list@[i as int]@);
        if list[i] == *text {
            assert(texts(list@).contains(text@));
            return true;
        }
    }
    false
}

fn push_engines(engines: &mut Vec<EngineTime>, id: &String, times: &Table<String, u64>)
    requires
        times.wf(),
        distinct_engines(old(engines)@),
        forall|k: int| 0 <= k < old(engines)@.len() ==> (#[trigger] old(engines)@[k]).client@ != id@,
    ensures
        distinct_engines(final(engines)@),
        forall|client: Seq<char>, engine: Seq<char>, n: u64| #[trigger]
            lists_engine(final(engines)@, client, engine, n) == (lists_engine(
                old(engines)@,
                client,
                engine,
                n,
            ) || (client == id@ && times@.contains_key(engine) && times@[engine] == n)),
{
    let ghost before = engines@;
    let ghost pairs = times.pairs();
    let count = times.len();
    for i in 0..count
        invariant
            pairs == times.pairs(),
            count == pairs.len(),
            engines@.len() == before.len() + i,
            forall|k: int| 0 <= k < before.len() ==> engines@[k] == before[k],
            forall|k: int|
                0 <= k < i ==> (#[trigger] engines@[before.len() + k]).client@ == id@
                    && engines@[before.len() + k].engine@ == pairs[k].0@
                    && engines@[before.len() + k].nanoseconds == pairs[k].1,
    {
        engines.push(
            EngineTime {
                client: id.clone(),
                engine: times.key_at(i).clone(),
                nanoseconds: *times.value_at(i),
            },
        );
    }
    proof {
        lemma_map_of(pairs);
        assert forall|i: int, j: int| 0 <= i < j < engines@.len() implies (
        #[trigger] engines@[i]).client@ != (#[trigger] engines@[j]).client@ || engines@[i].engine@
            != engines@[j].engine@ by {
            if j < before.len() {
                assert(engines@[i] == before[i] && engines@[j] == before[j]);
            } else {
                let b = j - before.len();
                assert(engines@[before.len() + b].engine@ == pairs[b].0@);
                if i < before.len() {
                    assert(engines@[i] == before[i]);
                } else {
                    let a = i - before.len();
                    assert(engines@[before.len() + a].engine@ == pairs[a].0@);
                    assert(pairs[a].0@ != pairs[b].0@);
                }
            }
        }
        assert forall|client: Seq<char>, engine: Seq<char>, n: u64| #[trigger]
            lists_engine(engines@, client, engine, n) == (lists_engine(before, client, engine, n)
                || (client == id@ && times@.contains_key(engine) && times@[engine] == n)) by {
            if lists_engine(before, client, engine, n) {
                let k = choose|k: int|
                    0 <= k < before.len() && (#[trigger] before[k]).client@ == client
                        && before[k].engine@ == engine && before[k].nanoseconds == n;
                assert(engines@[k] == before[k]);
            }
            if client == id@ && times@.contains_key(engine) && times@[engine] == n {
                let k = choose|k: int| 0 <= k < pairs.len() && (#[trigger] pairs[k]).0@ == engine;
                assert(engines@[before.len() + k].client@ == client);
            }
            if lists_engine(engines@, client, engine, n) {
                let k = choose|k: int|
                    0 <= k < engines@.len() && (#[trigger] engines@[k]).client@ == client
                        && engines@[k].engine@ == engine && engines@[k].nanoseconds == n;
                if k < before.len() {
                    assert(engines@[k] == before[k]);
                } else {
                    let m = k - before.len();
                    assert(engines@[before.len() + m].engine@ == pairs[m].0@);
                }
            }
        }
    }
}

/// The usage of a process's clients, without those in `elsewhere`, which count
/// for other processes.
fn aggregate_gpu_clients(
    clients: &Table<String, GpuClientStat>,
    elsewhere: &Vec<String>,
) -> (stat: GpuProcessStat)
    requires
        clients.wf(),
        forall|id: Seq<char>| #[trigger] clients@.contains_key(id) ==> clients@[id].wf(),
    ensures
        distinct_engines(stat.engines@),
        forall|client: Seq<char>, engine: Seq<char>, n: u64| #[trigger]
            lists_engine(stat.engines@, client, engine, n) == (counts_client(
                clients@,
                texts(elsewhere@),
                client,
            ) && clients@[client].engine_nanoseconds@.contains_key(engine)
                && clients@[client].engine_nanoseconds@[engine] == n),
        stat.resident_memory_bytes == capped(
            map_total(clients@, client_memory(texts(elsewhere@), true)),
        ),
        stat.allocated_memory_bytes == capped(
            map_total(clients@, client_memory(texts(elsewhere@), false)),
        ),
{
    let ghost others = texts(elsewhere@);
    let ghost pairs = clients.pairs();
    let ghost resident_of = of_entry::<String, GpuClientStat>(client_memory(others, true));
    let ghost allocated_of = of_entry::<String, GpuClientStat>(client_memory(others, false));
    let mut engines: Vec<EngineTime> = Vec::new();
    let mut resident: u64 = 0;
    let mut allocated: u64 = 0;
    let count = clients.len();
    proof {
        lemma_map_of(pairs);
    }
    for i in 0..count
        invariant
            clients.wf(),
            forall|id: Seq<char>| #[trigger] clients@.contains_key(id) ==> clients@[id].wf(),
            others == texts(elsewhere@),
            pairs == clients.pairs(),
            count == pairs.len(),
            forall|k: int|
                0 <= k < pairs.len() ==> clients@.contains_key((#[trigger] pairs[k]).0@)
                    && clients@[pairs[k].0@] == pairs[k].1,
            resident_of == of_entry::<String, GpuClientStat>(client_memory(others, true)),
            allocated_of == of_entry::<String, GpuClientStat>(client_memory(others, false)),
            resident == capped(seq_sum(pairs.take(i as int), resident_of)),
            allocated == capped(seq_sum(pairs.take(i as int), allocated_of)),
            distinct_engines(engines@),
            forall|client: Seq<char>, engine: Seq<char>, n: u64| #[trigger]
                lists_engine(engines@, client, engine, n) == exists|k: int|
                    0 <= k < i && (#[trigger] pairs[k]).0@ == client && !others.contains(client)
                        && pairs[k].1.engine_nanoseconds@.contains_key(engine)
                        && pairs[k].1.engine_nanoseconds@[engine] == n,
    {
        let ghost before = engines@;
        let id = clients.key_at(i);
        let client = clients.value_at(i);
        proof {
            assert(pairs.take(i + 1).drop_last() =~= pairs.take(i as int));
            assert(clients@.contains_key(pairs[i as int].0@));
        }
        let skipped = lists_text(elsewhere, id);
        proof {
            assert forall|k: int| 0 <= k < engines@.len() implies (#[trigger] engines@[k]).client@
                != id@ by {
                let e = engines@[k];
                assert(lists_engine(engines@, e.client@, e.engine@, e.nanoseconds));
                let m = choose|m: int|
                    0 <= m < i && (#[trigger] pairs[m]).0@ == e.client@ && !others.contains(
                        e.client@,
                    ) && pairs[m].1.engine_nanoseconds@.contains_key(e.engine@)
                        && pairs[m].1.engine_nanoseconds@[e.engine@] == e.nanoseconds;
                assert(pairs[m].0@ != pairs[i as int].0@);
            }
        }
        if !skipped {
            push_engines(&mut engines, id, &client.engine_nanoseconds);
            add_counter(&mut resident, total_regions(&client.resident_regions));
            add_counter(&mut allocated, total_regions(&client.allocated_regions));
        }
        proof {
            assert forall|c: Seq<char>, engine: Seq<char>, n: u64| #[trigger]
                lists_engine(engines@, c, engine, n) == exists|k: int|
                    0 <= k < i + 1 && (#[trigger] pairs[k]).0@ == c && !others.contains(c)
                        && pairs[k].1.engine_nanoseconds@.contains_key(engine)
                        && pairs[k].1.engine_nanoseconds@[engine] == n by {
                let here = pairs[i as int].0@ == c && !others.contains(c)
                    && pairs[i as int].1.engine_nanoseconds@.contains_key(engine)
                    && pairs[i as int].1.engine_nanoseconds@[engine] == n;
                assert(lists_engine(engines@, c, engine, n) == (lists_engine(before, c, engine, n)
                    || here));
                if lists_engine(before, c, engine, n) {
                    let k = choose|k: int|
                        0 <= k < i && (#[trigger] pairs[k]).0@ == c && !others.contains(c)
                            && pairs[k].1.engine_nanoseconds@.contains_key(engine)
                            && pairs[k].1.engine_nanoseconds@[engine] == n;
                    assert(pairs[k].0@ == c);
                }
            }
        }
    }
    proof {
        assert(pairs.take(count as int) =~= pairs);
        lemma_total_pairs(pairs, client_memory(others, true));
        lemma_total_pairs(pairs, client_memory(others, false));
        lemma_map_of(pairs);
        assert forall|client: Seq<char>, engine: Seq<char>, n: u64| #[trigger]
            lists_engine(engines@, client, engine, n) == (counts_client(clients@, others, client)
                && clients@[client].engine_nanoseconds@.contains_key(engine)
                && clients@[client].engine_nanoseconds@[engine] == n) by {
            if counts_client(clients@, others, client) {
                let k = choose|k: int| 0 <= k < pairs.len() && (#[trigger] pairs[k]).0@ == client;
                assert(pairs[k].0@ == client);
            }
        }
    }
    GpuProcessStat { engines, resident_memory_bytes: resident, allocated_memory_bytes: allocated }
}

/// All clients that the descriptions speak of.
pub open spec fn clients_of(files: Seq<Seq<char>>) -> Map<Seq<char>, GpuClient> {
    Map::new(
        |id: Seq<char>| client_in(files, id) is Some,
        |id: Seq<char>| client_in(files, id)->0,
    )
}

/// One of the processes before the given one has this client open.
pub open spec fn seen_before(processes: Seq<Seq<Seq<char>>>, i: int, id: Seq<char>) -> bool {
    exists|j: int|
        0 <= j < i && j < processes.len() && client_in(#[trigger] processes[j], id) is Some
}

/// The resident or allocated memory of one client, unless it was seen before.
pub open spec fn own_memory(
    processes: Seq<Seq<Seq<char>>>,
    i: int,
    resident: bool,
) -> spec_fn(Seq<char>, GpuClient) -> nat {
    |id: Seq<char>, client: GpuClient|
        if seen_before(processes, i, id) {
            0
        } else if resident {
            region_total(client.resident) as nat
        } else {
            region_total(client.allocated) as nat
        }
}

/// The usage of one process of a list: that of its clients, without those that
/// a process before it has open too.
pub open spec fn is_gpu_usage(
    processes: Seq<Seq<Seq<char>>>,
    i: int,
    stat: GpuProcessStat,
) -> bool {
    let clients = clients_of(processes[i]);
    &&& distinct_engines(stat.engines@)
    &&& forall|client: Seq<char>, engine: Seq<char>, n: u64| #[trigger]
        lists_engine(stat.engines@, client, engine, n) == (!seen_before(processes, i, client)
            && clients.contains_key(client) && clients[client].engines.contains_key(engine)
            && clients[client].engines[engine] == n)
    &&& stat.resident_memory_bytes == capped(map_total(clients, own_memory(processes, i, true)))
    &&& stat.allocated_memory_bytes == capped(map_total(clients, own_memory(processes, i, false)))
}

/// The descriptions of the processes' open files.
pub open spec fn descriptions(processes: Seq<Vec<String>>) -> Seq<Seq<Seq<char>>> {
    processes.map_values(|files: Vec<String>| texts(files@))
}

fn include_ids(ids: &mut Vec<String>, clients: &Table<String, GpuClientStat>)
    requires
        clients.wf(),
    ensures
        forall|id: Seq<char>| #[trigger]
            texts(final(ids)@).contains(id) == (texts(old(ids)@).contains(id)
                || clients@.contains_key(id)),
{
    let ghost before = texts(ids@);
    let ghost pairs = clients.pairs();
    let count = clients.len();
    for i in 0..count
        invariant
            pairs == clients.pairs(),
            count == pairs.len(),
            texts(ids@) == before + pairs.take(i as int).map_values(
                |p: (String, GpuClientStat)| p.0@,
            ),
    {
        let ghost earlier = texts(ids@);
        ids.push(clients.key_at(i).clone());
        assert(texts(ids@) =~= earlier.push(pairs[i as int].0@));
        assert(texts(ids@) =~= before + pairs.take(i + 1).map_values(
            |p: (String, GpuClientStat)| p.0@,
        ));
    }
    proof {
        assert(pairs.take(count as int) =~= pairs);
        lemma_map_of(pairs);
        let added = pairs.map_values(|p: (String, GpuClientStat)| p.0@);
        assert forall|id: Seq<char>| #[trigger] texts(ids@).contains(id) == (before.contains(id)
            || clients@.contains_key(id)) by {
            if before.contains(id) {
                let k = choose|k: int| 0 <= k < before.len() && before[k] == id;
                assert(texts(ids@)[k] == id);
            }
            if clients@.contains_key(id) {
                let k = choose|k: int| 0 <= k < pairs.len() && (#[trigger] pairs[k]).0@ == id;
                assert(texts(ids@)[before.len() + k] == added[k]);
            }
            if texts(ids@).contains(id) {
                let k = choose|k: int| 0 <= k < texts(ids@).len() && texts(ids@)[k] == id;
                if k < before.len() {
                    assert(before[k] == id);
                } else {
                    assert(pairs[k - before.len()].0@ == id);
                }
            }
        }
    }
}

/// The GPU usage of each of the given processes, from the descriptions of its
/// open files. `None` stands for a process without a GPU client. A client that
/// several processes have open counts for the first of them.
pub fn gpu_processes(processes: &Vec<Vec<String>>) -> (usages: Vec<Option<GpuProcessStat>>)
    ensures
        usages@.len() == processes@.len(),
        forall|i: int|
            0 <= i < usages@.len() ==> match #[trigger] usages@[i] {
                None => clients_of(descriptions(processes@)[i]) =~= Map::empty(),
                Some(stat) => !(clients_of(descriptions(processes@)[i]) =~= Map::empty())
                    && is_gpu_usage(descriptions(processes@), i, stat),
            },
{
    let ghost all = descriptions(processes@);
    let mut usages: Vec<Option<GpuProcessStat>> = Vec::new();
    let mut seen: Vec<String> = Vec::new();
    for i in 0..processes.len()
        invariant
            all == descriptions(processes@),
            usages@.len() == i,
            forall|id: Seq<char>| #[trigger]
                texts(seen@).contains(id) == seen_before(all, i as int, id),
            forall|k: int|
                0 <= k < usages@.len() ==> match #[trigger] usages@[k] {
                    None => clients_of(all[k]) =~= Map::empty(),
                    Some(stat) => !(clients_of(all[k]) =~= Map::empty()) && is_gpu_usage(
                        all,
                        k,
                        stat,
                    ),
                },
    {
        let ghost before = texts(seen@);
        let clients = gpu_clients(&processes[i]);
        let ghost own = clients_of(all[i as int]);
        proof {
            assert(all[i as int] == texts(processes@[i as int]@));
            assert(own.dom() =~= clients@.dom());
            lemma_total_pairs(
                clients.pairs(),
                client_memory(before, true),
            );
            if clients.pairs().len() > 0 {
                lemma_map_of(clients.pairs());
                assert(clients@.contains_key(clients.pairs()[0].0@));
                assert(own.contains_key(clients.pairs()[0].0@));
            } else {
                assert(own =~= Map::empty());
            }
        }
        if clients.len() == 0 {
            usages.push(None);
        } else {
            let stat = aggregate_gpu_clients(&clients, &seen);
            proof {
                assert forall|id: Seq<char>, resident: bool|
                    clients@.contains_key(id) implies #[trigger] client_memory(before, resident)(
                    id,
                    clients@[id],
                ) == own_memory(all, i as int, resident)(id, own[id]) by {
                    assert(client_in(all[i as int], id) == Some(clients@[id]@));
                }
                lemma_total_same(
                    clients@,
                    own,
                    client_memory(before, true),
                    own_memory(all, i as int, true),
                );
                lemma_total_same(
                    clients@,
                    own,
                    client_memory(before, false),
                    own_memory(all, i as int, false),
                );
                assert forall|client: Seq<char>, engine: Seq<char>, n: u64| #[trigger]
                    lists_engine(stat.engines@, client, engine, n) == (!seen_before(
                        all,
                        i as int,
                        client,
                    ) && own.contains_key(client) && own[client].engines.contains_key(engine)
                        && own[client].engines[engine] == n) by {
                    if clients@.contains_key(client) {
                        assert(client_in(all[i as int], client) == Some(clients@[client]@));
                    }
                }
            }
            usages.push(Some(stat));
        }
        include_ids(&mut seen, &clients);
        proof {
            assert forall|id: Seq<char>| #[trigger]
                texts(seen@).contains(id) == seen_before(all, i + 1, id) by {
                assert(texts(seen@).contains(id) == (before.contains(id) || clients@.contains_key(
                    id,
                )));
                if seen_before(all, i as int, id) {
                    let j = choose|j: int|
                        0 <= j < i && j < all.len() && client_in(#[trigger] all[j], id) is Some;
                    assert(client_in(all[j], id) is Some);
                }
                if clients@.contains_key(id) {
                    assert(client_in(all[i as int], id) is Some);
                }
            }
        }
    }
    usages
}

/// A client that several processes have open is charged to the first of them:
/// none of the others lists its engines or counts its memory.
pub proof fn lemma_client_counts_once(
    processes: Seq<Seq<Seq<char>>>,
    first: int,
    other: int,
    client: Seq<char>,
    stat: GpuProcessStat,
)
    requires
        0 <= first < other < processes.len(),
        clients_of(processes[first]).contains_key(client),
        is_gpu_usage(processes, other, stat),
    ensures
        forall|engine: Seq<char>, n: u64| !#[trigger]
            lists_engine(stat.engines@, client, engine, n),
        forall|resident: bool, usage: GpuClient| #[trigger]
            own_memory(processes, other, resident)(client, usage) == 0,
{
    assert(client_in(processes[first], client) is Some);
    assert(seen_before(processes, other, client));
}

} // verus!

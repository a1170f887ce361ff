//! What is read from the files that the kernel keeps about processes and control
//! groups.

use vstd::prelude::*;
use crate::key_values::{count_in, pair_in, pairs_in, PairForm};
use crate::procfs::{
    cgroup_counters_in, cgroup_in, device_total, first_eight, io_in, is_application_cgroup,
    lists_member, names_processor, numbers_in, rollup_memory, stat_in, status_memory,
    system_cpu_in,
};
use crate::splitting_laws::{
    is_free_of, lemma_decimal_digits, lemma_parse_decimal, lemma_split_once,
    lemma_together_split, together,
};
use crate::text::{decimal, ends_with, is_white_space, lines, starts_with, trim, words};
use crate::text_laws::{
    lemma_endings, lemma_find, lemma_last_part, lemma_one_word, lemma_trim, lemma_words_joined,
    occurs,
};

verus! {

/// A number, or the greatest that fits where it does not.
pub open spec fn fitting(n: int) -> int {
    if n <= u64::MAX {
        n
    } else {
        u64::MAX as int
    }
}

proof fn lemma_digits_are_visible(n: nat)
    ensures
        decimal(n).len() > 0,
        forall|i: int| 0 <= i < decimal(n).len() ==> !is_white_space(#[trigger] decimal(n)[i]),
        words(decimal(n)) == seq![decimal(n)],
{
    lemma_decimal_digits(n);
    let d = decimal(n);
    assert forall|i: int| 0 <= i < d.len() implies !is_white_space(#[trigger] d[i]) by {
        assert(crate::text::is_ascii_digit(d[i]));
    }
    lemma_one_word(d);
}

/// A number is read whatever white space stands around it.
pub proof fn lemma_trimmed_number(n: u64, before: Seq<char>, behind: Seq<char>)
    requires
        forall|i: int| 0 <= i < before.len() ==> is_white_space(#[trigger] before[i]),
        forall|i: int| 0 <= i < behind.len() ==> is_white_space(#[trigger] behind[i]),
    ensures
        trim(before + decimal(n as nat) + behind) == decimal(n as nat),
{
    lemma_digits_are_visible(n as nat);
    let d = decimal(n as nat);
    let s = before + d + behind;
    let (a, b) = lemma_trim(s);
    let first = before.len() as int;
    let last = first + d.len() - 1;
    assert(s[first] == d[0]);
    assert(s[last] == d[d.len() - 1]);
    assert(a <= first) by {
        if a > first {
            assert(is_white_space(s[first]));
        }
    }
    assert(b > last) by {
        if b <= last {
            assert(is_white_space(s[last]));
        }
    }
    if a < first {
        assert(trim(s)[0] == s[a]);
        assert(s[a] == before[a]);
    }
    if b > last + 1 {
        assert(trim(s).last() == s[b - 1]);
        assert(s[b - 1] == behind[b - 1 - last - 1]);
    }
    assert(s.subrange(first, last + 1) =~= d);
}

// ---------------------------------------------------------------------
// Names and numbers

/// A name and a number that are written down in one of the forms are read again.
pub proof fn lemma_pairs(name: Seq<char>, n: u64, unit: Seq<char>)
    ensures
        is_free_of(name, '=') ==> pair_in(
            PairForm::Equals,
            name + seq!['='] + decimal(n as nat),
        ) == Some((name, n)),
        is_free_of(name, ':') ==> pair_in(
            PairForm::Colon,
            name + seq![':'] + (seq![' '] + decimal(n as nat)),
        ) == Some((name, n)),
        is_free_of(name, ':') ==> pair_in(
            PairForm::Measured,
            name + seq![':'] + (seq![' '] + decimal(n as nat) + seq![' '] + unit),
        ) == Some((name, n)),
{
    let d = decimal(n as nat);
    lemma_parse_decimal(n as nat, u64::MAX as nat);
    lemma_digits_are_visible(n as nat);
    let none = Seq::<char>::empty();
    lemma_trimmed_number(n, seq![' '], none);
    assert(seq![' '] + d + none =~= seq![' '] + d);
    if is_free_of(name, '=') {
        lemma_split_once(name, '=', d);
    }
    if is_free_of(name, ':') {
        lemma_split_once(name, ':', seq![' '] + d);
        let value = seq![' '] + d + seq![' '] + unit;
        lemma_split_once(name, ':', value);
        lemma_words_joined(seq![' '] + d, ' ', unit);
        lemma_words_joined(none, ' ', d);
        assert(none + seq![' '] + d =~= seq![' '] + d);
        assert(words(none) =~= Seq::<Seq<char>>::empty());
        assert(words(value)[0] == d);
    }
}

/// A name without white space and a number with a space between them are read again.
pub proof fn lemma_spaced_pair(name: Seq<char>, n: u64)
    requires
        forall|i: int| 0 <= i < name.len() ==> !is_white_space(#[trigger] name[i]),
    ensures
        pair_in(PairForm::Spaced, name + seq![' '] + decimal(n as nat)) == Some((name, n)),
{
    let d = decimal(n as nat);
    let s = name + seq![' '] + d;
    lemma_parse_decimal(n as nat, u64::MAX as nat);
    let none = Seq::<char>::empty();
    lemma_trimmed_number(n, none, none);
    assert(none + d + none =~= d);
    crate::text::lemma_word_len(s);
    let w = crate::text::word_len(s) as int;
    assert(s[name.len() as int] == ' ');
    if w < name.len() {
        assert(s[w] == name[w]);
    }
    assert(w == name.len());
    assert(s.take(w) =~= name);
    assert(s.skip(w + 1) =~= d);
}

/// The last of the texts that pairs this name with a number pairs it with this one.
pub open spec fn reports(
    list: Seq<Seq<char>>,
    form: PairForm,
    name: Seq<char>,
    n: u64,
) -> bool {
    exists|i: int|
        0 <= i < list.len() && pair_in(form, #[trigger] list[i]) == Some((name, n)) && forall|j: int|
            i < j < list.len() ==> match pair_in(form, #[trigger] list[j]) {
                Some((other, _)) => other != name,
                None => true,
            }
}

/// None of the texts pairs this name with a number.
pub open spec fn is_unreported(list: Seq<Seq<char>>, form: PairForm, name: Seq<char>) -> bool {
    forall|j: int|
        0 <= j < list.len() ==> match pair_in(form, #[trigger] list[j]) {
            Some((other, _)) => other != name,
            None => true,
        }
}

/// The number of a name is the one that is reported last, and zero where there is
/// none.
pub proof fn lemma_reported(list: Seq<Seq<char>>, form: PairForm, name: Seq<char>, n: u64)
    ensures
        reports(list, form, name, n) ==> pairs_in(form, list).contains_key(name) && count_in(
            pairs_in(form, list),
            name,
        ) == n,
        is_unreported(list, form, name) ==> !pairs_in(form, list).contains_key(name) && count_in(
            pairs_in(form, list),
            name,
        ) == 0,
    decreases list.len(),
{
    if list.len() > 0 {
        let front = list.drop_last();
        lemma_reported(front, form, name, n);
        if reports(list, form, name, n) {
            let i = choose|i: int|
                0 <= i < list.len() && pair_in(form, #[trigger] list[i]) == Some((name, n))
                    && forall|j: int|
                    i < j < list.len() ==> match pair_in(form, #[trigger] list[j]) {
                        Some((other, _)) => other != name,
                        None => true,
                    };
            if i < front.len() {
                assert(front[i] == list[i]);
                assert forall|j: int| i < j < front.len() implies match pair_in(
                    form,
                    #[trigger] front[j],
                ) {
                    Some((other, _)) => other != name,
                    None => true,
                } by {
                    assert(front[j] == list[j]);
                }
                assert(reports(front, form, name, n));
                assert(list[list.len() - 1] == list.last());
            }
        }
        if is_unreported(list, form, name) {
            assert forall|j: int| 0 <= j < front.len() implies match pair_in(
                form,
                #[trigger] front[j],
            ) {
                Some((other, _)) => other != name,
                None => true,
            } by {
                assert(front[j] == list[j]);
            }
            assert(list[list.len() - 1] == list.last());
        }
    }
}

// ---------------------------------------------------------------------
// Processes

/// Each counter of a process's input and output has its name in the file.
pub proof fn lemma_io(text: Seq<char>, n: u64)
    ensures
        ({
            let list = lines(text);
            let io = io_in(text);
            &&& reports(list, PairForm::Colon, "rchar"@, n) ==> io.logical_read_bytes == n
            &&& reports(list, PairForm::Colon, "wchar"@, n) ==> io.logical_write_bytes == n
            &&& reports(list, PairForm::Colon, "syscr"@, n) ==> io.read_operations == n
            &&& reports(list, PairForm::Colon, "syscw"@, n) ==> io.write_operations == n
            &&& reports(list, PairForm::Colon, "read_bytes"@, n) ==> io.physical_read_bytes == n
            &&& reports(list, PairForm::Colon, "write_bytes"@, n) ==> io.physical_write_bytes == n
            &&& reports(list, PairForm::Colon, "cancelled_write_bytes"@, n)
                ==> io.cancelled_write_bytes == n
            &&& is_unreported(list, PairForm::Colon, "rchar"@) ==> io.logical_read_bytes == 0
            &&& is_unreported(list, PairForm::Colon, "wchar"@) ==> io.logical_write_bytes == 0
            &&& is_unreported(list, PairForm::Colon, "read_bytes"@) ==> io.physical_read_bytes == 0
            &&& is_unreported(list, PairForm::Colon, "write_bytes"@) ==> io.physical_write_bytes
                == 0
        }),
{
    let list = lines(text);
    lemma_reported(list, PairForm::Colon, "rchar"@, n);
    lemma_reported(list, PairForm::Colon, "wchar"@, n);
    lemma_reported(list, PairForm::Colon, "syscr"@, n);
    lemma_reported(list, PairForm::Colon, "syscw"@, n);
    lemma_reported(list, PairForm::Colon, "read_bytes"@, n);
    lemma_reported(list, PairForm::Colon, "write_bytes"@, n);
    lemma_reported(list, PairForm::Colon, "cancelled_write_bytes"@, n);
}

/// A process's memory is given in kibibytes: all of it, its share, and what swapped
/// out, where its share of that goes before the whole.
pub proof fn lemma_rollup(text: Seq<char>, n: u64)
    ensures
        ({
            let list = lines(text);
            let memory = rollup_memory(text);
            &&& reports(list, PairForm::Measured, "Rss"@, n) ==> memory.rss_bytes == fitting(
                n * 1024,
            ) && memory.rss_available
            &&& reports(list, PairForm::Measured, "Pss"@, n) ==> memory.pss_bytes == fitting(
                n * 1024,
            ) && memory.pss_available
            &&& reports(list, PairForm::Measured, "SwapPss"@, n) ==> memory.swap_bytes == fitting(
                n * 1024,
            )
            &&& is_unreported(list, PairForm::Measured, "SwapPss"@) && reports(
                list,
                PairForm::Measured,
                "Swap"@,
                n,
            ) ==> memory.swap_bytes == fitting(n * 1024)
            &&& is_unreported(list, PairForm::Measured, "Rss"@) ==> !memory.rss_available
            &&& is_unreported(list, PairForm::Measured, "Pss"@) ==> !memory.pss_available
        }),
{
    let list = lines(text);
    lemma_reported(list, PairForm::Measured, "Rss"@, n);
    lemma_reported(list, PairForm::Measured, "Pss"@, n);
    lemma_reported(list, PairForm::Measured, "SwapPss"@, n);
    lemma_reported(list, PairForm::Measured, "Swap"@, n);
}

/// A process's own memory is what is private to it: clean, dirty and huge pages.
pub proof fn lemma_private_memory(text: Seq<char>, clean: u64, dirty: u64, huge: u64)
    requires
        reports(lines(text), PairForm::Measured, "Private_Clean"@, clean),
        reports(lines(text), PairForm::Measured, "Private_Dirty"@, dirty),
        reports(lines(text), PairForm::Measured, "Private_Hugetlb"@, huge) || (huge == 0
            && is_unreported(lines(text), PairForm::Measured, "Private_Hugetlb"@)),
    ensures
        rollup_memory(text).private_bytes == fitting((clean + dirty + huge) * 1024),
{
    let list = lines(text);
    lemma_reported(list, PairForm::Measured, "Private_Clean"@, clean);
    lemma_reported(list, PairForm::Measured, "Private_Dirty"@, dirty);
    lemma_reported(list, PairForm::Measured, "Private_Hugetlb"@, huge);
}

/// Without the exact figures, what is resident and what is swapped out is taken from
/// the status of the process.
pub proof fn lemma_status(text: Seq<char>, n: u64)
    ensures
        ({
            let list = lines(text);
            let memory = status_memory(text);
            &&& reports(list, PairForm::Measured, "VmRSS"@, n) ==> memory.rss_bytes == fitting(
                n * 1024,
            ) && memory.rss_available
            &&& reports(list, PairForm::Measured, "VmSwap"@, n) ==> memory.swap_bytes == fitting(
                n * 1024,
            )
            &&& is_unreported(list, PairForm::Measured, "VmRSS"@) ==> !memory.rss_available
            &&& !memory.pss_available
            &&& memory.pss_bytes == 0
            &&& memory.private_bytes == 0
        }),
{
    let list = lines(text);
    lemma_reported(list, PairForm::Measured, "VmRSS"@, n);
    lemma_reported(list, PairForm::Measured, "VmSwap"@, n);
}

/// The fields of a process stand behind the last round bracket: its parent second, the
/// ticks it ran as a user and in the kernel twelfth and thirteenth, when it started
/// twentieth, its faults tenth and its threads eighteenth.
pub proof fn lemma_stat(
    front: Seq<char>,
    rest: Seq<char>,
    parent: u32,
    user: u64,
    system: u64,
    start: u64,
    faults: u64,
    threads: u64,
)
    requires
        is_free_of(rest, ')'),
        words(rest).len() >= 20,
        words(rest)[1] == decimal(parent as nat),
        words(rest)[9] == decimal(faults as nat),
        words(rest)[11] == decimal(user as nat),
        words(rest)[12] == decimal(system as nat),
        words(rest)[17] == decimal(threads as nat),
        words(rest)[19] == decimal(start as nat),
    ensures
        match stat_in(front + seq![')'] + rest) {
            Some(stat) => stat.parent_pid == parent && stat.total_ticks == fitting(user + system)
                && stat.start_ticks == start && stat.major_faults == faults && stat.thread_count
                == threads,
            None => false,
        },
{
    let stat = front + seq![')'] + rest;
    assert(!rest.contains(')'));
    lemma_last_part(front, ')', rest);
    crate::text::lemma_last_index(stat, ')');
    assert(stat[front.len() as int] == ')');
    let at = crate::text::last_index(stat, ')');
    assert(at == front.len()) by {
        if at > front.len() {
            assert(rest[at - front.len() - 1] == stat[at]);
        }
    }
    assert(stat.skip(at + 1) =~= rest);
    lemma_parse_decimal(parent as nat, u32::MAX as nat);
    lemma_parse_decimal(user as nat, u64::MAX as nat);
    lemma_parse_decimal(system as nat, u64::MAX as nat);
    lemma_parse_decimal(start as nat, u64::MAX as nat);
    lemma_parse_decimal(faults as nat, u64::MAX as nat);
    lemma_parse_decimal(threads as nat, u64::MAX as nat);
}

/// A line without a bracket, or with fewer fields, says nothing.
pub proof fn lemma_no_stat(front: Seq<char>, rest: Seq<char>)
    requires
        is_free_of(rest, ')'),
    ensures
        stat_in(rest) is None,
        words(rest).len() < 20 ==> stat_in(front + seq![')'] + rest) is None,
{
    crate::text::lemma_last_index(rest, ')');
    let stat = front + seq![')'] + rest;
    crate::text::lemma_last_index(stat, ')');
    assert(stat[front.len() as int] == ')');
    let at = crate::text::last_index(stat, ')');
    assert(at == front.len()) by {
        if at > front.len() {
            assert(rest[at - front.len() - 1] == stat[at]);
        }
    }
    assert(stat.skip(at + 1) =~= rest);
}

// ---------------------------------------------------------------------
// The system

/// Numbers added up.
pub open spec fn total(list: Seq<u64>) -> int
    decreases list.len(),
{
    if list.len() == 0 {
        0
    } else {
        total(list.drop_last()) + list.last()
    }
}

proof fn lemma_total_is_positive(list: Seq<u64>)
    ensures
        total(list) >= 0,
    decreases list.len(),
{
    if list.len() > 0 {
        lemma_total_is_positive(list.drop_last());
    }
}

proof fn lemma_first(counters: Seq<u64>, n: int)
    requires
        0 <= n <= counters.len(),
    ensures
        first_eight(counters, n) == fitting(total(counters.take(n))),
    decreases n,
{
    lemma_total_is_positive(counters.take(n));
    if n > 0 {
        lemma_first(counters, n - 1);
        lemma_total_is_positive(counters.take(n - 1));
        assert(counters.take(n).drop_last() =~= counters.take(n - 1));
        assert(counters.take(n).last() == counters[n - 1]);
    }
}

/// Guest time, which stands behind the first eight counters, is not counted again.
pub proof fn lemma_ticks(counters: Seq<u64>)
    ensures
        counters.len() <= 8 ==> first_eight(counters, 8) == fitting(total(counters)),
        counters.len() > 8 ==> first_eight(counters, 8) == fitting(total(counters.take(8))),
{
    let n = if counters.len() <= 8 {
        counters.len() as int
    } else {
        8
    };
    lemma_first(counters, n);
    if counters.len() <= 8 {
        assert(counters.take(n) =~= counters);
        if counters.len() == 0 {
        } else if counters.len() < 8 {
            assert(first_eight(counters, 8) == first_eight(counters, n));
        }
    }
}

/// Words that are numbers are read as those.
pub proof fn lemma_numbers(list: Seq<Seq<char>>, numbers: Seq<u64>)
    requires
        list.len() == numbers.len(),
        forall|i: int| 0 <= i < list.len() ==> #[trigger] list[i] == decimal(numbers[i] as nat),
    ensures
        numbers_in(list) == numbers,
    decreases list.len(),
{
    if list.len() > 0 {
        let front = list.drop_last();
        let fewer = numbers.drop_last();
        assert forall|i: int| 0 <= i < front.len() implies #[trigger] front[i] == decimal(
            fewer[i] as nat,
        ) by {
            assert(front[i] == list[i]);
        }
        lemma_numbers(front, fewer);
        lemma_parse_decimal(numbers.last() as nat, u64::MAX as nat);
        assert(list[list.len() - 1] == list.last());
        assert(fewer.push(numbers.last()) =~= numbers);
    } else {
        assert(numbers_in(list) =~= numbers);
    }
}

/// The ticks of the system are those of the last line for all processors; lines for
/// single ones count these.
pub proof fn lemma_system(list: Seq<Seq<char>>, values: Seq<char>, numbers: Seq<u64>)
    requires
        words(values).len() == numbers.len(),
        forall|i: int|
            0 <= i < numbers.len() ==> #[trigger] words(values)[i] == decimal(numbers[i] as nat),
    ensures
        system_cpu_in(list.push("cpu "@ + values)).0 == first_eight(numbers, 8),
        system_cpu_in(list.push("cpu "@ + values)).1 == system_cpu_in(list).1,
{
    let line = "cpu "@ + values;
    lemma_endings(values, "cpu "@);
    lemma_numbers(words(values), numbers);
    assert(list.push(line).drop_last() =~= list);
}

pub proof fn lemma_processors(list: Seq<Seq<char>>, number: nat, values: Seq<char>, other: Seq<char>)
    requires
        !starts_with(other, "cpu"@),
    ensures
        ({
            let line = "cpu"@ + decimal(number) + seq![' '] + values;
            &&& system_cpu_in(list.push(line)).1 == system_cpu_in(list).1 + 1
            &&& system_cpu_in(list.push(line)).0 == system_cpu_in(list).0
        }),
        system_cpu_in(list.push(other)) == system_cpu_in(list),
        system_cpu_in(Seq::empty()).1 == 0,
{
    reveal_strlit("cpu");
    reveal_strlit("cpu ");
    let d = decimal(number);
    let rest = d + seq![' '] + values;
    let line = "cpu"@ + d + seq![' '] + values;
    assert(line =~= "cpu"@ + rest);
    lemma_endings(rest, "cpu"@);
    lemma_digits_are_visible(number);
    lemma_decimal_digits(number);
    lemma_words_joined(d, ' ', values);
    assert(words(rest)[0] == d);
    assert(line[3] == d[0]);
    assert(!starts_with(line, "cpu "@)) by {
        if starts_with(line, "cpu "@) {
            assert(line.take(4)[3] == "cpu "@[3]);
            assert(crate::text::is_ascii_digit(d[0]));
        }
    }
    assert(names_processor(line));
    assert(list.push(line).drop_last() =~= list);
    assert(list.push(other).drop_last() =~= list);
    assert(!starts_with(other, "cpu "@)) by {
        if starts_with(other, "cpu "@) {
            assert(other.take(3) =~= "cpu"@) by {
                assert forall|i: int| 0 <= i < 3 implies #[trigger] other.take(3)[i] == "cpu"@[i] by {
                    assert(other.take(4)[i] == "cpu "@[i]);
                }
            }
        }
    }
}

// ---------------------------------------------------------------------
// Control groups

/// A process's control group is that of the unified hierarchy.
pub proof fn lemma_cgroup(list: Seq<Seq<char>>, path: Seq<char>, others: Seq<Seq<char>>)
    requires
        forall|i: int| 0 <= i < list.len() ==> !starts_with(#[trigger] list[i], "0::"@),
    ensures
        cgroup_in(list) is None,
        cgroup_in(list + (seq!["0::"@ + path] + others)) == Some(path),
    decreases list.len(),
{
    let tail = seq!["0::"@ + path] + others;
    lemma_endings(path, "0::"@);
    if list.len() == 0 {
        assert(list + tail =~= tail);
        assert(tail[0] == "0::"@ + path);
    } else {
        let rest = list.skip(1);
        assert forall|i: int| 0 <= i < rest.len() implies !starts_with(#[trigger] rest[i], "0::"@) by {
            assert(rest[i] == list[i + 1]);
        }
        lemma_cgroup(rest, path, others);
        assert((list + tail).skip(1) =~= rest + tail);
        assert((list + tail)[0] == list[0]);
        assert(!starts_with(list[0], "0::"@));
    }
}

/// A control group is an application's where it is a scope or a service with a name
/// that says so.
pub proof fn lemma_application_cgroup(directory: Seq<char>, name: Seq<char>)
    requires
        is_free_of(name, '/'),
        name.len() > 2,
    ensures
        is_application_cgroup(directory + seq!['/'] + name) == ((ends_with(name, ".scope"@)
            || ends_with(name, ".service"@)) && (starts_with(name, "app-"@) || occurs(
            "flatpak"@,
            name,
        ) || occurs("snap."@, name))),
{
    reveal_strlit("");
    reveal_strlit(".");
    reveal_strlit("..");
    lemma_find(name, "flatpak"@);
    lemma_find(name, "snap."@);
    let path = directory + seq!['/'] + name;
    crate::splitting_laws::lemma_split_together(path, '/');
    let parts = crate::text::split_on(path, '/');
    lemma_last_split(directory, '/', name);
    assert(parts.last() == name);
}

proof fn lemma_last_split(front: Seq<char>, c: char, part: Seq<char>)
    requires
        is_free_of(part, c),
    ensures
        crate::text::split_on(front + seq![c] + part, c).len() > 0,
        crate::text::split_on(front + seq![c] + part, c).last() == part,
    decreases front.len(),
{
    let s = front + seq![c] + part;
    crate::text::lemma_first_index(s, c);
    let n = crate::text::first_index(s, c) as int;
    assert(s[front.len() as int] == c);
    assert(n <= front.len());
    let rest = s.skip(n + 1);
    if n < front.len() {
        let shorter = front.skip(n + 1);
        assert(rest =~= shorter + seq![c] + part);
        lemma_last_split(shorter, c, part);
    } else {
        assert(rest =~= part);
        lemma_together_split(seq![part], c);
        assert(together(seq![part], c) == part);
    }
}

/// A counter of a control group is that of its devices together.
pub proof fn lemma_devices(list: Seq<Seq<char>>, line: Seq<char>, name: Seq<char>, n: u64)
    ensures
        device_total(Seq::empty(), name) == 0,
        reports(words(line), PairForm::Equals, name, n) ==> device_total(list.push(line), name)
            == fitting(device_total(list, name) + n),
        is_unreported(words(line), PairForm::Equals, name) ==> device_total(list.push(line), name)
            == device_total(list, name),
{
    assert(list.push(line).drop_last() =~= list);
    lemma_reported(words(line), PairForm::Equals, name, n);
}

/// What is known of a control group comes from its files, each counter under its
/// name; without the processor time nothing is known.
pub proof fn lemma_cgroup_counters(
    cpu: &str,
    memory: Option<&str>,
    swap: Option<&str>,
    io: &str,
    n: u64,
)
    ensures
        cgroup_counters_in(None, memory, swap, Some(io)) is None,
        match cgroup_counters_in(Some(cpu), memory, swap, Some(io)) {
            Some(counters) => {
                &&& reports(lines(cpu@), PairForm::Spaced, "usage_usec"@, n)
                    ==> counters.cpu_usage_usec == n
                &&& counters.read_bytes == device_total(lines(io@), "rbytes"@)
                &&& counters.write_bytes == device_total(lines(io@), "wbytes"@)
                &&& counters.read_operations == device_total(lines(io@), "rios"@)
                &&& counters.write_operations == device_total(lines(io@), "wios"@)
                &&& memory is Some && trim(memory->0@) == decimal(n as nat)
                    ==> counters.memory_bytes == n
                &&& swap is Some && trim(swap->0@) == decimal(n as nat) ==> counters.swap_bytes == n
                &&& memory is None ==> counters.memory_bytes == 0
                &&& swap is None ==> counters.swap_bytes == 0
            },
            None => false,
        },
        match cgroup_counters_in(Some(cpu), memory, swap, None) {
            Some(counters) => counters.read_bytes == 0 && counters.write_bytes == 0
                && counters.read_operations == 0 && counters.write_operations == 0,
            None => false,
        },
{
    lemma_reported(lines(cpu@), PairForm::Spaced, "usage_usec"@, n);
    lemma_parse_decimal(n as nat, u64::MAX as nat);
    let none = Seq::<Seq<char>>::empty();
    assert(device_total(none, "rbytes"@) == 0);
    assert(device_total(none, "wbytes"@) == 0);
    assert(device_total(none, "rios"@) == 0);
    assert(device_total(none, "wios"@) == 0);
}

/// The members of a control group are the numbers on the lines of its files.
pub proof fn lemma_member(files: Seq<Seq<char>>, i: int, k: int, pid: u32)
    requires
        0 <= i < files.len(),
        0 <= k < lines(files[i]).len(),
        lines(files[i])[k] == decimal(pid as nat),
    ensures
        lists_member(files, pid),
{
    lemma_parse_decimal(pid as nat, u32::MAX as nat);
}

} // verus!

//! Which application a window belongs to.

use vstd::prelude::*;
use vstd::utf8::{decode_utf8, encode_utf8, valid_utf8};
use crate::catalog::{Catalog, CatalogEntry, EntryView, views_of};
use crate::hyprland::{Client, Window};
use crate::table::Table;
use crate::text::{
    after_last, append, ascii_lowercase, byte_len, chars_after_last, chars_of, ends_with,
    finishes_with, hex_char, is_hex_digit, lower_chars, rsplit_once, same_chars,
    same_ignoring_case, split_at_last, string_of, strip_suffix, text_len, trim, trim_chars,
    trim_end_matches, without_endings, without_suffix,
};

verus! {

// ---------------------------------------------------------------------
// Unit names

/// The text that bytes stand for, with a replacement character for what is no
/// UTF-8.
pub uninterp spec fn lossy_text(bytes: Seq<u8>) -> Seq<char>;

/// `String::from_utf8_lossy`: the result is a function of the bytes, and the text
/// that valid UTF-8 encodes.
#[verifier::external_body]
fn from_utf8_lossy(bytes: &Vec<u8>) -> (text: String)
    ensures
        text@ == lossy_text(bytes@),
        valid_utf8(bytes@) ==> text@ == decode_utf8(bytes@),
{
    String::from_utf8_lossy(bytes).into_owned()
}

/// The value of a hexadecimal digit.
pub open spec fn hex_value(b: u8) -> Option<u8> {
    if 48 <= b <= 57 {
        Some((b - 48) as u8)
    } else if 65 <= b <= 70 {
        Some((b - 55) as u8)
    } else if 97 <= b <= 102 {
        Some((b - 87) as u8)
    } else {
        None
    }
}

/// The number that two bytes write down: two hexadecimal digits, or a plus sign
/// and one.
pub open spec fn hex_pair(high: u8, low: u8) -> Option<u8> {
    match (hex_value(high), hex_value(low)) {
        (Some(h), Some(l)) => Some((h * 16 + l) as u8),
        (None, Some(l)) => if high == 43 {
            Some(l)
        } else {
            None
        },
        _ => None,
    }
}

/// The byte that stands escaped at the beginning.
pub open spec fn escaped_byte(bytes: Seq<u8>) -> Option<u8> {
    if bytes.len() >= 4 && bytes[0] == 92 && bytes[1] == 120 {
        hex_pair(bytes[2], bytes[3])
    } else {
        None
    }
}

/// The bytes with each `\xHH` replaced by the byte that it stands for.
pub open spec fn unescaped(bytes: Seq<u8>) -> Seq<u8>
    decreases bytes.len(),
{
    if bytes.len() == 0 {
        Seq::empty()
    } else {
        match escaped_byte(bytes) {
            Some(b) => seq![b] + unescaped(bytes.skip(4)),
            None => seq![bytes[0]] + unescaped(bytes.skip(1)),
        }
    }
}

/// The text that bytes stand for: the one that they encode if they are UTF-8.
pub open spec fn text_of(bytes: Seq<u8>) -> Seq<char> {
    if valid_utf8(bytes) {
        decode_utf8(bytes)
    } else {
        lossy_text(bytes)
    }
}

/// A part of a unit name as it was before systemd escaped it.
pub open spec fn unescaped_name(name: Seq<char>) -> Seq<char> {
    text_of(unescaped(encode_utf8(name)))
}

fn hex_digit_value(b: u8) -> (value: Option<u8>)
    ensures
        value == hex_value(b),
{
    if 48 <= b && b <= 57 {
        Some(b - 48)
    } else if 65 <= b && b <= 70 {
        Some(b - 55)
    } else if 97 <= b && b <= 102 {
        Some(b - 87)
    } else {
        None
    }
}

fn hex_pair_value(high: u8, low: u8) -> (value: Option<u8>)
    ensures
        value == hex_pair(high, low),
{
    match (hex_digit_value(high), hex_digit_value(low)) {
        (Some(h), Some(l)) => Some(h * 16 + l),
        (None, Some(l)) => if high == 43 {
            Some(l)
        } else {
            None
        },
        _ => None,
    }
}

pub fn unescape_bytes(bytes: &[u8]) -> (decoded: Vec<u8>)
    ensures
        decoded@ == unescaped(bytes@),
{
    let mut decoded: Vec<u8> = Vec::new();
    let mut at: usize = 0;
    let length = bytes.len();
    assert(bytes@.skip(0) =~= bytes@);
    assert(decoded@ + unescaped(bytes@) =~= unescaped(bytes@));
    while at < length
        invariant
            at <= length,
            length == bytes@.len(),
            unescaped(bytes@) == decoded@ + unescaped(bytes@.skip(at as int)),
        decreases length - at,
    {
        let ghost before = decoded@;
        let ghost rest = bytes@.skip(at as int);
        let escaped = if length - at >= 4 && bytes[at] == 92 && bytes[at + 1] == 120 {
            hex_pair_value(bytes[at + 2], bytes[at + 3])
        } else {
            None
        };
        assert(escaped == escaped_byte(rest));
        match escaped {
            Some(b) => {
                decoded.push(b);
                assert(rest.skip(4) =~= bytes@.skip(at + 4));
                assert(before + (seq![b] + unescaped(rest.skip(4))) =~= decoded@ + unescaped(
                    rest.skip(4),
                ));
                at = at + 4;
            },
            None => {
                decoded.push(bytes[at]);
                assert(rest.skip(1) =~= bytes@.skip(at + 1));
                assert(before + (seq![rest[0]] + unescaped(rest.skip(1))) =~= decoded@ + unescaped(
                    rest.skip(1),
                ));
                at = at + 1;
            },
        }
    }
    assert(bytes@.skip(length as int).len() == 0);
    assert(decoded@ =~= unescaped(bytes@));
    decoded
}

fn systemd_unescape(name: &str) -> (text: String)
    ensures
        text@ == unescaped_name(name@),
{
    let decoded = unescape_bytes(name.as_bytes());
    from_utf8_lossy(&decoded)
}

/// Eight hexadecimal digits.
pub open spec fn is_instance_token(token: Seq<char>) -> bool {
    token.len() == 8 && forall|i: int| 0 <= i < token.len() ==> is_hex_digit(#[trigger] token[i])
}

fn instance_token(token: &[char]) -> (yes: bool)
    ensures
        yes == is_instance_token(token@),
{
    if token.len() != 8 {
        return false;
    }
    for i in 0..token.len()
        invariant
            forall|k: int| 0 <= k < i ==> is_hex_digit(#[trigger] token@[k]),
    {
        if !hex_char(token[i]) {
            return false;
        }
    }
    true
}

/// The parts of a name around the last separator, where what follows it is the
/// token of one instance.
pub open spec fn before_token(name: Seq<char>, separator: char) -> Option<Seq<char>> {
    match rsplit_once(name, separator) {
        Some((base, token)) => if is_instance_token(token) {
            Some(base)
        } else {
            None
        },
        None => None,
    }
}

/// What a unit's name holds of the application that the unit was made for:
/// scopes end in a hyphen and a token, services in an at sign and a token.
pub open spec fn unit_base(name: Seq<char>) -> Option<Seq<char>> {
    match strip_suffix(name, ".scope"@) {
        Some(rest) => before_token(rest, '-'),
        None => match strip_suffix(name, ".service"@) {
            Some(rest) => before_token(rest, '@'),
            None => None,
        },
    }
}

fn base_before_token<'a>(name: &'a [char], separator: char) -> (base: Option<&'a [char]>)
    ensures
        match base {
            Some(b) => before_token(name@, separator) == Some(b@),
            None => before_token(name@, separator) is None,
        },
{
    match split_at_last(name, separator) {
        Some((base, token)) => if instance_token(token) {
            Some(base)
        } else {
            None
        },
        None => None,
    }
}

/// What a unit's name, no longer escaped, holds of its application.
pub fn unit_application<'a>(name: &'a [char]) -> (base: Option<&'a [char]>)
    ensures
        match base {
            Some(b) => unit_base(name@) == Some(b@),
            None => unit_base(name@) is None,
        },
{
    match without_suffix(name, ".scope") {
        Some(rest) => base_before_token(rest, '-'),
        None => match without_suffix(name, ".service") {
            Some(rest) => base_before_token(rest, '@'),
            None => None,
        },
    }
}

// ---------------------------------------------------------------------
// Candidates

/// A desktop id without its ending.
pub open spec fn stem(id: Seq<char>) -> Seq<char> {
    trim_end_matches(id, ".desktop"@)
}

/// The unit was made for this application: the unit's name is the desktop id,
/// perhaps with something before a hyphen in front.
pub open spec fn names_entry(base: Seq<char>, entry: EntryView) -> bool {
    !entry.launch_only && (base == stem(entry.id) || ends_with(base, "-"@ + stem(entry.id)))
}

/// The application with the longest id of those that the unit names, and of the
/// longest the last.
pub open spec fn unit_target(entries: Seq<EntryView>, base: Seq<char>) -> Option<Seq<char>>
    decreases entries.len(),
{
    if entries.len() == 0 {
        None
    } else {
        let before = unit_target(entries.drop_last(), base);
        let entry = entries.last();
        if !names_entry(base, entry) {
            before
        } else {
            match before {
                Some(id) => if byte_len(id) <= byte_len(entry.id) {
                    Some(entry.id)
                } else {
                    before
                },
                None => Some(entry.id),
            }
        }
    }
}

/// The application that a control group was made for.
pub open spec fn cgroup_target(entries: Seq<EntryView>, path: Seq<char>) -> Option<Seq<char>> {
    match unit_base(unescaped_name(after_last(path, '/'))) {
        Some(base) => unit_target(entries, base),
        None => None,
    }
}

/// The application says that windows of this class are its own, by its id or by
/// its startup class.
pub open spec fn claims_class(entry: EntryView, class: Seq<char>) -> bool {
    !entry.launch_only && (ascii_lowercase(stem(entry.id)) == ascii_lowercase(class) || (
    entry.startup_class.len() > 0 && ascii_lowercase(entry.startup_class) == ascii_lowercase(
        class,
    )))
}

/// The first application that claims the class.
pub open spec fn exact_target(entries: Seq<EntryView>, class: Seq<char>) -> Option<Seq<char>>
    decreases entries.len(),
{
    if entries.len() == 0 {
        None
    } else if claims_class(entries[0], class) {
        Some(entries[0].id)
    } else {
        exact_target(entries.skip(1), class)
    }
}

/// The application's id is this, without regard to case.
pub open spec fn has_stem(entry: EntryView, name: Seq<char>) -> bool {
    !entry.launch_only && ascii_lowercase(stem(entry.id)) == ascii_lowercase(name)
}

/// The ids of the applications with this id, without regard to case.
pub open spec fn with_stem(entries: Seq<EntryView>, name: Seq<char>) -> Seq<Seq<char>>
    decreases entries.len(),
{
    if entries.len() == 0 {
        Seq::empty()
    } else {
        let before = with_stem(entries.drop_last(), name);
        if has_stem(entries.last(), name) {
            before.push(entries.last().id)
        } else {
            before
        }
    }
}

/// The one application whose id is the last part of a dotted class.
pub open spec fn suffix_target(entries: Seq<EntryView>, class: Seq<char>) -> Option<Seq<char>> {
    let found = with_stem(entries, after_last(class, '.'));
    if found.len() == 1 {
        Some(found[0])
    } else {
        None
    }
}

/// A window's class as applications claim it.
pub open spec fn plain_class(class: Seq<char>) -> Seq<char> {
    trim_end_matches(trim(class), ".desktop"@)
}

/// The first of two results that there is.
pub open spec fn either(a: Option<Seq<char>>, b: Option<Seq<char>>) -> Option<Seq<char>> {
    match a {
        Some(_) => a,
        None => b,
    }
}

/// The application whose class a window has.
pub open spec fn class_target(entries: Seq<EntryView>, window: Window) -> Option<Seq<char>> {
    either(
        either(
            exact_target(entries, plain_class(window.class)),
            exact_target(entries, plain_class(window.initial_class)),
        ),
        either(
            suffix_target(entries, plain_class(window.class)),
            suffix_target(entries, plain_class(window.initial_class)),
        ),
    )
}

/// The group of windows to which a window without an application belongs.
pub open spec fn window_group(window: Window) -> Seq<char> {
    "window-group:"@ + ascii_lowercase(
        trim(
            if window.initial_class.len() == 0 {
                window.class
            } else {
                window.initial_class
            },
        ),
    )
}

/// What a window belongs to: the application that its control group was made
/// for, else the one whose class it has, else a group of windows of its class.
pub open spec fn target_of(
    entries: Seq<EntryView>,
    window: Window,
    cgroup: Option<Seq<char>>,
) -> Seq<char> {
    let by_cgroup = match cgroup {
        Some(path) => cgroup_target(entries, path),
        None => None,
    };
    match either(by_cgroup, class_target(entries, window)) {
        Some(id) => id,
        None => window_group(window),
    }
}

/// The control group of a process, where it is known.
pub open spec fn known_cgroup(cgroups: Map<u32, String>, pid: u32) -> Option<Seq<char>> {
    if cgroups.contains_key(pid) {
        Some(cgroups[pid]@)
    } else {
        None
    }
}

// ---------------------------------------------------------------------
// Laws

/// One of the applications that may have windows has this id.
pub open spec fn lists_owner(entries: Seq<EntryView>, id: Seq<char>) -> bool {
    exists|i: int|
        0 <= i < entries.len() && (#[trigger] entries[i]).id == id && !entries[i].launch_only
}

proof fn lemma_owner_of_front(entries: Seq<EntryView>, id: Seq<char>)
    requires
        entries.len() > 0,
        lists_owner(entries.drop_last(), id),
    ensures
        lists_owner(entries, id),
{
    let i = choose|i: int|
        0 <= i < entries.drop_last().len() && (#[trigger] entries.drop_last()[i]).id == id
            && !entries.drop_last()[i].launch_only;
    assert(entries[i].id == id);
}

proof fn lemma_unit_target(entries: Seq<EntryView>, base: Seq<char>)
    ensures
        unit_target(entries, base) is Some ==> lists_owner(
            entries,
            unit_target(entries, base)->0,
        ),
    decreases entries.len(),
{
    if entries.len() > 0 {
        lemma_unit_target(entries.drop_last(), base);
        if unit_target(entries.drop_last(), base) is Some {
            lemma_owner_of_front(entries, unit_target(entries.drop_last(), base)->0);
        }
        if names_entry(base, entries.last()) {
            assert(entries[entries.len() - 1].id == entries.last().id);
        }
    }
}

proof fn lemma_exact_target(entries: Seq<EntryView>, class: Seq<char>)
    ensures
        exact_target(entries, class) is Some ==> lists_owner(
            entries,
            exact_target(entries, class)->0,
        ),
    decreases entries.len(),
{
    if entries.len() > 0 {
        if claims_class(entries[0], class) {
            assert(entries[0].id == exact_target(entries, class)->0);
        } else {
            lemma_exact_target(entries.skip(1), class);
            if exact_target(entries.skip(1), class) is Some {
                let id = exact_target(entries.skip(1), class)->0;
                let i = choose|i: int|
                    0 <= i < entries.skip(1).len() && (#[trigger] entries.skip(1)[i]).id == id
                        && !entries.skip(1)[i].launch_only;
                assert(entries[i + 1].id == id);
            }
        }
    }
}

proof fn lemma_with_stem(entries: Seq<EntryView>, name: Seq<char>)
    ensures
        forall|k: int|
            0 <= k < with_stem(entries, name).len() ==> lists_owner(
                entries,
                #[trigger] with_stem(entries, name)[k],
            ),
    decreases entries.len(),
{
    if entries.len() > 0 {
        let before = with_stem(entries.drop_last(), name);
        lemma_with_stem(entries.drop_last(), name);
        assert forall|k: int| 0 <= k < with_stem(entries, name).len() implies lists_owner(
            entries,
            #[trigger] with_stem(entries, name)[k],
        ) by {
            if k < before.len() {
                assert(before[k] == with_stem(entries, name)[k]);
                lemma_owner_of_front(entries, before[k]);
            } else {
                assert(entries[entries.len() - 1].id == entries.last().id);
            }
        }
    }
}

/// A window belongs to an application that may have windows, or to a group of
/// windows: no entry that is for launching only ever claims a window.
pub proof fn lemma_target_owner(
    entries: Seq<EntryView>,
    window: Window,
    cgroup: Option<Seq<char>>,
)
    ensures
        lists_owner(entries, target_of(entries, window, cgroup)) || target_of(
            entries,
            window,
            cgroup,
        ) == window_group(window),
{
    if cgroup is Some {
        let name = unescaped_name(after_last(cgroup->0, '/'));
        if unit_base(name) is Some {
            lemma_unit_target(entries, unit_base(name)->0);
        }
    }
    lemma_exact_target(entries, plain_class(window.class));
    lemma_exact_target(entries, plain_class(window.initial_class));
    lemma_with_stem(entries, after_last(plain_class(window.class), '.'));
    lemma_with_stem(entries, after_last(plain_class(window.initial_class), '.'));
}

/// A control group that was made for an application decides, whatever class the
/// window has.
pub proof fn lemma_cgroup_decides(
    entries: Seq<EntryView>,
    window: Window,
    other: Window,
    path: Seq<char>,
)
    requires
        cgroup_target(entries, path) is Some,
    ensures
        target_of(entries, window, Some(path)) == cgroup_target(entries, path)->0,
        target_of(entries, window, Some(path)) == target_of(entries, other, Some(path)),
{
}

// ---------------------------------------------------------------------
// Resolution

fn entry_stem(entry: &CatalogEntry) -> (s: Vec<char>)
    ensures
        s@ == stem(entry@.id),
{
    let id = chars_of(entry.id.as_str());
    let rest = without_endings(id.as_slice(), ".desktop");
    let mut s: Vec<char> = Vec::new();
    append(&mut s, rest);
    assert(s@ =~= rest@);
    s
}

fn is_named(base: &[char], entry: &CatalogEntry) -> (yes: bool)
    ensures
        yes == names_entry(base@, entry@),
{
    if entry.launch_only {
        return false;
    }
    let s = entry_stem(entry);
    if same_chars(base, s.as_slice()) {
        return true;
    }
    let mut ending = chars_of("-");
    append(&mut ending, s.as_slice());
    finishes_with(base, ending.as_slice())
}

fn unit_owner(catalog: &Catalog, base: &[char]) -> (id: Option<String>)
    ensures
        match id {
            Some(i) => unit_target(views_of(catalog.entries@), base@) == Some(i@),
            None => unit_target(views_of(catalog.entries@), base@) is None,
        },
{
    let ghost all = views_of(catalog.entries@);
    let mut best: Option<usize> = None;
    for i in 0..catalog.entries.len()
        invariant
            all == views_of(catalog.entries@),
            match best {
                Some(b) => b < i && unit_target(all.take(i as int), base@) == Some(all[b as int].id),
                None => unit_target(all.take(i as int), base@) is None,
            },
    {
        assert(all.take(i + 1).drop_last() =~= all.take(i as int));
        assert(all.take(i + 1).last() == catalog.entries@[i as int]@);
        if is_named(base, &catalog.entries[i]) {
            let longer = match best {
                Some(b) => {
                    assert(all[b as int] == catalog.entries@[b as int]@);
                    text_len(catalog.entries[b].id.as_str()) <= text_len(
                        catalog.entries[i].id.as_str(),
                    )
                },
                None => true,
            };
            if longer {
                best = Some(i);
            }
        }
    }
    assert(all.take(all.len() as int) =~= all);
    match best {
        Some(b) => {
            assert(all[b as int] == catalog.entries@[b as int]@);
            Some(catalog.entries[b].id.clone())
        },
        None => None,
    }
}

fn cgroup_owner(catalog: &Catalog, path: &str) -> (id: Option<String>)
    ensures
        match id {
            Some(i) => cgroup_target(views_of(catalog.entries@), path@) == Some(i@),
            None => cgroup_target(views_of(catalog.entries@), path@) is None,
        },
{
    let path = chars_of(path);
    let unit = string_of(chars_after_last(path.as_slice(), '/'));
    let name = systemd_unescape(unit.as_str());
    let name = chars_of(name.as_str());
    match unit_application(name.as_slice()) {
        Some(base) => unit_owner(catalog, base),
        None => None,
    }
}

fn class_claimed(entry: &CatalogEntry, class: &[char]) -> (yes: bool)
    ensures
        yes == claims_class(entry@, class@),
{
    if entry.launch_only {
        return false;
    }
    let s = entry_stem(entry);
    if same_ignoring_case(s.as_slice(), class) {
        return true;
    }
    let startup = chars_of(entry.startup_class.as_str());
    startup.len() > 0 && same_ignoring_case(startup.as_slice(), class)
}

fn exact_owner(catalog: &Catalog, class: &[char]) -> (id: Option<String>)
    ensures
        match id {
            Some(i) => exact_target(views_of(catalog.entries@), class@) == Some(i@),
            None => exact_target(views_of(catalog.entries@), class@) is None,
        },
{
    let ghost all = views_of(catalog.entries@);
    assert(all.skip(0) =~= all);
    for i in 0..catalog.entries.len()
        invariant
            all == views_of(catalog.entries@),
            exact_target(all, class@) == exact_target(all.skip(i as int), class@),
    {
        assert(all.skip(i as int)[0] == catalog.entries@[i as int]@);
        assert(all.skip(i as int).skip(1) =~= all.skip(i + 1));
        if class_claimed(&catalog.entries[i], class) {
            return Some(catalog.entries[i].id.clone());
        }
    }
    None
}

fn suffix_owner(catalog: &Catalog, class: &[char]) -> (id: Option<String>)
    ensures
        match id {
            Some(i) => suffix_target(views_of(catalog.entries@), class@) == Some(i@),
            None => suffix_target(views_of(catalog.entries@), class@) is None,
        },
{
    let name = chars_after_last(class, '.');
    let ghost all = views_of(catalog.entries@);
    let mut found: Vec<usize> = Vec::new();
    for i in 0..catalog.entries.len()
        invariant
            all == views_of(catalog.entries@),
            found@.len() == with_stem(all.take(i as int), name@).len(),
            forall|k: int|
                0 <= k < found@.len() ==> (#[trigger] found@[k]) < i && with_stem(
                    all.take(i as int),
                    name@,
                )[k] == all[found@[k] as int].id,
    {
        assert(all.take(i + 1).drop_last() =~= all.take(i as int));
        assert(all.take(i + 1).last() == catalog.entries@[i as int]@);
        let entry = &catalog.entries[i];
        if !entry.launch_only {
            let s = entry_stem(entry);
            if same_ignoring_case(s.as_slice(), name) {
                found.push(i);
            }
        }
    }
    assert(all.take(all.len() as int) =~= all);
    if found.len() == 1 {
        assert(all[found@[0] as int] == catalog.entries@[found@[0] as int]@);
        Some(catalog.entries[found[0]].id.clone())
    } else {
        None
    }
}

fn class_owner(catalog: &Catalog, window: &Client) -> (id: Option<String>)
    ensures
        match id {
            Some(i) => class_target(views_of(catalog.entries@), window@) == Some(i@),
            None => class_target(views_of(catalog.entries@), window@) is None,
        },
{
    let class = chars_of(window.class.as_str());
    let class = without_endings(trim_chars(class.as_slice()), ".desktop");
    let initial = chars_of(window.initial_class.as_str());
    let initial = without_endings(trim_chars(initial.as_slice()), ".desktop");
    if let Some(id) = exact_owner(catalog, class) {
        return Some(id);
    }
    if let Some(id) = exact_owner(catalog, initial) {
        return Some(id);
    }
    if let Some(id) = suffix_owner(catalog, class) {
        return Some(id);
    }
    suffix_owner(catalog, initial)
}

/// What a window belongs to, where the control group of its process is known.
pub fn resolve_target_with_cgroup(
    catalog: &Catalog,
    window: &Client,
    cgroup: Option<&str>,
) -> (target: String)
    ensures
        target@ == target_of(
            views_of(catalog.entries@),
            window@,
            match cgroup {
                Some(path) => Some(path@),
                None => None,
            },
        ),
{
    if let Some(path) = cgroup {
        if let Some(id) = cgroup_owner(catalog, path) {
            return id;
        }
    }
    if let Some(id) = class_owner(catalog, window) {
        return id;
    }
    let mut group = chars_of("window-group:");
    let class = chars_of(
        if window.initial_class.as_str().is_empty() {
            window.class.as_str()
        } else {
            window.initial_class.as_str()
        },
    );
    let lower = lower_chars(trim_chars(class.as_slice()));
    append(&mut group, lower.as_slice());
    string_of(group.as_slice())
}

/// What a window belongs to, with the control groups of processes as they were
/// read.
pub fn resolve_target(catalog: &Catalog, window: &Client, cgroups: &Table<u32, String>) -> (target:
    String)
    requires
        cgroups.wf(),
    ensures
        target@ == target_of(
            views_of(catalog.entries@),
            window@,
            known_cgroup(cgroups@, window.pid),
        ),
{
    match cgroups.get(&window.pid) {
        Some(path) => resolve_target_with_cgroup(catalog, window, Some(path.as_str())),
        None => resolve_target_with_cgroup(catalog, window, None),
    }
}

} // verus!

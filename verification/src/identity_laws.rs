//! Which application gets a window, in terms of its class and its control group.

use vstd::prelude::*;
use vstd::utf8::encode_utf8;
use crate::catalog::EntryView;
use crate::hyprland::Window;
use crate::identity::{
    claims_class, escaped_byte, exact_target, has_stem, hex_pair, is_instance_token,
    names_entry, plain_class, suffix_target, target_of, unescaped, unescaped_name, unit_base,
    unit_target, window_group, with_stem,
};
use crate::query::window_target;
use crate::text::{
    after_last, ascii_lowercase, byte_len, ends_with, is_hex_digit, starts_with, strip_suffix,
    trim, trim_end_matches,
};
use crate::text_laws::{
    lemma_after_last, lemma_endings, lemma_last_part, lemma_lowercase, lemma_same_letters,
    lemma_without_ending, same_letters,
};

verus! {

/// A desktop id without its ending.
pub open spec fn id_name(id: Seq<char>) -> Seq<char> {
    trim_end_matches(id, ".desktop"@)
}

/// The entry may have windows, and this class is its startup class or its id.
pub open spec fn owns_class(entry: EntryView, class: Seq<char>) -> bool {
    !entry.launch_only && (same_letters(id_name(entry.id), class) || (entry.startup_class.len() > 0
        && same_letters(entry.startup_class, class)))
}

/// The entry may have windows, and its id is this name.
pub open spec fn is_named(entry: EntryView, name: Seq<char>) -> bool {
    !entry.launch_only && same_letters(id_name(entry.id), name)
}

/// No entry owns the class of a window, neither the present nor the first one.
pub open spec fn unowned(entries: Seq<EntryView>, window: Window) -> bool {
    forall|k: int|
        0 <= k < entries.len() ==> !owns_class(#[trigger] entries[k], trim(window.class))
            && !owns_class(entries[k], trim(window.initial_class))
}

/// The classes of a window are written without the ending of a desktop id.
pub open spec fn plainly_written(window: Window) -> bool {
    !ends_with(trim(window.class), ".desktop"@) && !ends_with(
        trim(window.initial_class),
        ".desktop"@,
    )
}

proof fn lemma_ending()
    ensures
        ".desktop"@.len() == 8,
{
    reveal_strlit(".desktop");
}

proof fn lemma_owns(entry: EntryView, class: Seq<char>)
    ensures
        claims_class(entry, class) == owns_class(entry, class),
        has_stem(entry, class) == is_named(entry, class),
{
    lemma_same_letters(id_name(entry.id), class);
    lemma_same_letters(entry.startup_class, class);
}

proof fn lemma_first_owner(entries: Seq<EntryView>, class: Seq<char>, i: int)
    requires
        0 <= i < entries.len(),
        owns_class(entries[i], class),
        forall|k: int| 0 <= k < i ==> !owns_class(#[trigger] entries[k], class),
    ensures
        exact_target(entries, class) == Some(entries[i].id),
    decreases entries.len(),
{
    lemma_owns(entries[0], class);
    if i > 0 {
        let rest = entries.skip(1);
        assert(rest[i - 1] == entries[i]);
        assert forall|k: int| 0 <= k < i - 1 implies !owns_class(#[trigger] rest[k], class) by {
            assert(rest[k] == entries[k + 1]);
        }
        lemma_first_owner(rest, class, i - 1);
    }
}

proof fn lemma_no_owner(entries: Seq<EntryView>, class: Seq<char>)
    requires
        forall|k: int| 0 <= k < entries.len() ==> !owns_class(#[trigger] entries[k], class),
    ensures
        exact_target(entries, class) is None,
    decreases entries.len(),
{
    if entries.len() > 0 {
        let rest = entries.skip(1);
        lemma_owns(entries[0], class);
        assert forall|k: int| 0 <= k < rest.len() implies !owns_class(#[trigger] rest[k], class) by {
            assert(rest[k] == entries[k + 1]);
        }
        lemma_no_owner(rest, class);
    }
}

proof fn lemma_plain(window: Window)
    requires
        plainly_written(window),
    ensures
        plain_class(window.class) == trim(window.class),
        plain_class(window.initial_class) == trim(window.initial_class),
{
    lemma_ending();
    lemma_without_ending(trim(window.class), ".desktop"@);
    lemma_without_ending(trim(window.initial_class), ".desktop"@);
}

/// A window whose class an application owns belongs to it, to the first of several,
/// whatever class the window had first.
pub proof fn lemma_class_owner(entries: Seq<EntryView>, window: Window, i: int)
    requires
        0 <= i < entries.len(),
        !ends_with(trim(window.class), ".desktop"@),
        owns_class(entries[i], trim(window.class)),
        forall|k: int| 0 <= k < i ==> !owns_class(#[trigger] entries[k], trim(window.class)),
    ensures
        target_of(entries, window, None) == entries[i].id,
{
    lemma_ending();
    lemma_without_ending(trim(window.class), ".desktop"@);
    lemma_first_owner(entries, trim(window.class), i);
}

/// A window whose class is the startup class of one application belongs to it, as
/// long as the class is no other application's.
pub proof fn lemma_startup_class(entries: Seq<EntryView>, window: Window, i: int)
    requires
        0 <= i < entries.len(),
        !entries[i].launch_only,
        entries[i].startup_class.len() > 0,
        same_letters(entries[i].startup_class, trim(window.class)),
        !ends_with(trim(window.class), ".desktop"@),
        forall|k: int|
            0 <= k < entries.len() && k != i ==> !owns_class(
                #[trigger] entries[k],
                trim(window.class),
            ),
    ensures
        target_of(entries, window, None) == entries[i].id,
{
    lemma_class_owner(entries, window, i);
}

/// A window whose class is the desktop id of one application, without the ending,
/// belongs to it, as long as the class is no other application's.
pub proof fn lemma_desktop_id(entries: Seq<EntryView>, window: Window, name: Seq<char>, i: int)
    requires
        0 <= i < entries.len(),
        !entries[i].launch_only,
        entries[i].id == name + ".desktop"@,
        !ends_with(name, ".desktop"@),
        same_letters(name, trim(window.class)),
        !ends_with(trim(window.class), ".desktop"@),
        forall|k: int|
            0 <= k < entries.len() && k != i ==> !owns_class(
                #[trigger] entries[k],
                trim(window.class),
            ),
    ensures
        target_of(entries, window, None) == entries[i].id,
{
    lemma_ending();
    lemma_without_ending(name, ".desktop"@);
    lemma_class_owner(entries, window, i);
}

/// A window whose class is nobody's belongs to the application that owns the class
/// it had first.
pub proof fn lemma_initial_class_owner(entries: Seq<EntryView>, window: Window, i: int)
    requires
        0 <= i < entries.len(),
        plainly_written(window),
        forall|k: int|
            0 <= k < entries.len() ==> !owns_class(#[trigger] entries[k], trim(window.class)),
        owns_class(entries[i], trim(window.initial_class)),
        forall|k: int|
            0 <= k < i ==> !owns_class(#[trigger] entries[k], trim(window.initial_class)),
    ensures
        target_of(entries, window, None) == entries[i].id,
{
    lemma_plain(window);
    lemma_no_owner(entries, trim(window.class));
    lemma_first_owner(entries, trim(window.initial_class), i);
}

/// A class may be written with the ending of a desktop id as well as without.
pub proof fn lemma_class_with_ending(
    entries: Seq<EntryView>,
    a: Window,
    b: Window,
    cgroup: Option<Seq<char>>,
)
    requires
        trim(b.class) == trim(a.class) + ".desktop"@,
        b.initial_class == a.initial_class,
        a.initial_class.len() > 0,
    ensures
        target_of(entries, a, cgroup) == target_of(entries, b, cgroup),
{
    lemma_ending();
    lemma_without_ending(trim(a.class), ".desktop"@);
}

proof fn lemma_with_stem(entries: Seq<EntryView>, name: Seq<char>, i: int)
    requires
        0 <= i < entries.len(),
        forall|k: int|
            0 <= k < entries.len() ==> is_named(#[trigger] entries[k], name) == (k == i),
    ensures
        with_stem(entries, name) == seq![entries[i].id],
    decreases entries.len(),
{
    let front = entries.drop_last();
    let n = entries.len() - 1;
    lemma_owns(entries.last(), name);
    assert(entries.last() == entries[n]);
    assert(is_named(entries[n], name) == (n == i));
    if i == n {
        assert forall|k: int| 0 <= k < front.len() implies !is_named(#[trigger] front[k], name) by {
            assert(front[k] == entries[k]);
        }
        lemma_without_stem(front, name);
        assert(with_stem(entries, name) =~= seq![entries[i].id]);
    } else {
        assert forall|k: int| 0 <= k < front.len() implies is_named(#[trigger] front[k], name) == (k
            == i) by {
            assert(front[k] == entries[k]);
        }
        lemma_with_stem(front, name, i);
    }
}

proof fn lemma_without_stem(entries: Seq<EntryView>, name: Seq<char>)
    requires
        forall|k: int| 0 <= k < entries.len() ==> !is_named(#[trigger] entries[k], name),
    ensures
        with_stem(entries, name).len() == 0,
    decreases entries.len(),
{
    if entries.len() > 0 {
        let front = entries.drop_last();
        lemma_owns(entries.last(), name);
        assert(entries.last() == entries[entries.len() - 1]);
        assert forall|k: int| 0 <= k < front.len() implies !is_named(#[trigger] front[k], name) by {
            assert(front[k] == entries[k]);
        }
        lemma_without_stem(front, name);
    }
}

proof fn lemma_many_stems(entries: Seq<EntryView>, name: Seq<char>, i: int, j: int)
    requires
        0 <= i < j < entries.len(),
        is_named(entries[i], name),
        is_named(entries[j], name),
    ensures
        with_stem(entries, name).len() >= 2,
    decreases entries.len(),
{
    let front = entries.drop_last();
    lemma_owns(entries.last(), name);
    if j == entries.len() - 1 {
        lemma_some_stem(front, name, i);
    } else {
        lemma_many_stems(front, name, i, j);
    }
}

proof fn lemma_some_stem(entries: Seq<EntryView>, name: Seq<char>, i: int)
    requires
        0 <= i < entries.len(),
        is_named(entries[i], name),
    ensures
        with_stem(entries, name).len() >= 1,
    decreases entries.len(),
{
    lemma_owns(entries.last(), name);
    if i < entries.len() - 1 {
        lemma_some_stem(entries.drop_last(), name, i);
    }
}

/// A window whose class nobody owns belongs to the one application whose id is the
/// last part of the dotted class.
pub proof fn lemma_class_suffix(
    entries: Seq<EntryView>,
    window: Window,
    front: Seq<char>,
    name: Seq<char>,
    i: int,
)
    requires
        plainly_written(window),
        unowned(entries, window),
        trim(window.class) == front + seq!['.'] + name,
        !name.contains('.'),
        0 <= i < entries.len(),
        forall|k: int|
            0 <= k < entries.len() ==> is_named(#[trigger] entries[k], name) == (k == i),
    ensures
        target_of(entries, window, None) == entries[i].id,
{
    lemma_plain(window);
    lemma_no_owner(entries, trim(window.class));
    lemma_no_owner(entries, trim(window.initial_class));
    lemma_last_part(front, '.', name);
    lemma_with_stem(entries, name, i);
}

/// Where the last part of the present class names nobody, that of the first one
/// decides.
pub proof fn lemma_initial_class_suffix(
    entries: Seq<EntryView>,
    window: Window,
    front: Seq<char>,
    name: Seq<char>,
    i: int,
)
    requires
        plainly_written(window),
        unowned(entries, window),
        trim(window.initial_class) == front + seq!['.'] + name,
        !name.contains('.'),
        0 <= i < entries.len(),
        forall|k: int|
            0 <= k < entries.len() ==> is_named(#[trigger] entries[k], name) == (k == i),
        forall|k: int|
            0 <= k < entries.len() ==> !is_named(
                #[trigger] entries[k],
                after_last(trim(window.class), '.'),
            ),
    ensures
        target_of(entries, window, None) == entries[i].id,
{
    lemma_plain(window);
    lemma_no_owner(entries, trim(window.class));
    lemma_no_owner(entries, trim(window.initial_class));
    lemma_last_part(front, '.', name);
    lemma_with_stem(entries, name, i);
    lemma_ambiguous(entries, trim(window.class));
}

/// A window's process tells its control group, where that is known.
pub proof fn lemma_known_cgroup(
    entries: Seq<EntryView>,
    cgroups: Map<u32, String>,
    window: Window,
)
    ensures
        cgroups.contains_key(window.pid) ==> window_target(entries, cgroups, window) == target_of(
            entries,
            window,
            Some(cgroups[window.pid]@),
        ),
        !cgroups.contains_key(window.pid) ==> window_target(entries, cgroups, window) == target_of(
            entries,
            window,
            None,
        ),
{
}

/// The last part of a class decides nothing where it is the id of several
/// applications or of none: the window stands for itself.
pub proof fn lemma_window_group(entries: Seq<EntryView>, window: Window)
    requires
        plainly_written(window),
        unowned(entries, window),
        forall|class: Seq<char>|
            class == trim(window.class) || class == trim(window.initial_class) ==> {
                let name = #[trigger] after_last(class, '.');
                (forall|k: int| 0 <= k < entries.len() ==> !is_named(#[trigger] entries[k], name))
                    || exists|i: int, j: int|
                    0 <= i < j < entries.len() && is_named(#[trigger] entries[i], name) && is_named(
                        #[trigger] entries[j],
                        name,
                    )
            },
    ensures
        ({
            let class = trim(
                if window.initial_class.len() > 0 {
                    window.initial_class
                } else {
                    window.class
                },
            );
            let target = target_of(entries, window, None);
            &&& starts_with(target, "window-group:"@)
            &&& same_letters(target.skip("window-group:"@.len() as int), class)
            &&& forall|i: int|
                "window-group:"@.len() <= i < target.len() ==> !('A' <= #[trigger] target[i] <= 'Z')
        }),
{
    let class = trim(
        if window.initial_class.len() > 0 {
            window.initial_class
        } else {
            window.class
        },
    );
    lemma_plain(window);
    lemma_no_owner(entries, trim(window.class));
    lemma_no_owner(entries, trim(window.initial_class));
    lemma_ambiguous(entries, trim(window.class));
    lemma_ambiguous(entries, trim(window.initial_class));
    let target = target_of(entries, window, None);
    let lower = ascii_lowercase(class);
    assert(target == "window-group:"@ + lower);
    lemma_endings(lower, "window-group:"@);
    assert(target.skip("window-group:"@.len() as int) =~= lower);
    assert(same_letters(lower, class)) by {
        assert forall|i: int| 0 <= i < lower.len() implies crate::text_laws::same_letter(
            lower[i],
            #[trigger] class[i],
        ) by {
            lemma_lowercase(class, i);
        }
    }
    assert forall|i: int| "window-group:"@.len() <= i < target.len() implies !('A'
        <= #[trigger] target[i] <= 'Z') by {
        lemma_lowercase(class, i - "window-group:"@.len());
        assert(target[i] == lower[i - "window-group:"@.len()]);
    }
}

proof fn lemma_ambiguous(entries: Seq<EntryView>, class: Seq<char>)
    requires
        ({
            let name = after_last(class, '.');
            (forall|k: int| 0 <= k < entries.len() ==> !is_named(#[trigger] entries[k], name))
                || exists|i: int, j: int|
                0 <= i < j < entries.len() && is_named(#[trigger] entries[i], name) && is_named(
                    #[trigger] entries[j],
                    name,
                )
        }),
    ensures
        suffix_target(entries, class) is None,
{
    let name = after_last(class, '.');
    if forall|k: int| 0 <= k < entries.len() ==> !is_named(#[trigger] entries[k], name) {
        lemma_without_stem(entries, name);
    } else {
        let (i, j) = choose|i: int, j: int|
            0 <= i < j < entries.len() && is_named(#[trigger] entries[i], name) && is_named(
                #[trigger] entries[j],
                name,
            );
        lemma_many_stems(entries, name, i, j);
    }
}

/// Windows without an application belong together exactly if their classes are the
/// same but for the case of letters.
pub proof fn lemma_groups_by_class(a: Window, b: Window)
    requires
        a.initial_class.len() > 0,
        b.initial_class.len() > 0,
    ensures
        (window_group(a) == window_group(b)) == same_letters(
            trim(a.initial_class),
            trim(b.initial_class),
        ),
{
    let x = ascii_lowercase(trim(a.initial_class));
    let y = ascii_lowercase(trim(b.initial_class));
    lemma_same_letters(trim(a.initial_class), trim(b.initial_class));
    lemma_endings(x, "window-group:"@);
    lemma_endings(y, "window-group:"@);
}

// ---------------------------------------------------------------------
// Control groups

/// The unit's name is that of an application: the desktop id, perhaps with
/// something before a hyphen in front.
pub open spec fn unit_is_of(base: Seq<char>, entry: EntryView) -> bool {
    !entry.launch_only && (base == id_name(entry.id) || exists|front: Seq<char>| #[trigger]
        (front + "-"@ + id_name(entry.id)) == base)
}

/// Eight hexadecimal digits.
pub open spec fn is_token(token: Seq<char>) -> bool {
    token.len() == 8 && forall|i: int|
        0 <= i < token.len() ==> ('0' <= #[trigger] token[i] <= '9' || 'a' <= token[i] <= 'f' || 'A'
            <= token[i] <= 'F')
}

/// The name of a unit that was made for one instance of an application.
pub open spec fn is_unit_for(name: Seq<char>, base: Seq<char>, token: Seq<char>) -> bool {
    is_token(token) && (name == base + "-"@ + token + ".scope"@ || name == base + "@"@ + token
        + ".service"@)
}

proof fn lemma_unit_is_of(base: Seq<char>, entry: EntryView)
    ensures
        names_entry(base, entry) == unit_is_of(base, entry),
{
    let name = id_name(entry.id);
    let ending = "-"@ + name;
    if ends_with(base, ending) {
        let front = base.take(base.len() - ending.len());
        lemma_endings(base, ending);
        assert(front + "-"@ + name =~= front + ending);
    }
    if exists|front: Seq<char>| #[trigger] (front + "-"@ + name) == base {
        let front = choose|front: Seq<char>| #[trigger] (front + "-"@ + name) == base;
        assert(front + "-"@ + name =~= front + ending);
        lemma_endings(front, ending);
    }
}

proof fn lemma_unit_base(name: Seq<char>, base: Seq<char>, token: Seq<char>)
    requires
        is_unit_for(name, base, token),
    ensures
        unit_base(name) == Some(base),
{
    reveal_strlit("-");
    reveal_strlit("@");
    reveal_strlit(".scope");
    reveal_strlit(".service");
    assert(is_instance_token(token)) by {
        assert forall|i: int| 0 <= i < token.len() implies is_hex_digit(#[trigger] token[i]) by {}
    }
    assert("-"@ =~= seq!['-']);
    assert("@"@ =~= seq!['@']);
    assert(!token.contains('-')) by {
        if token.contains('-') {
            let k = choose|k: int| 0 <= k < token.len() && token[k] == '-';
            assert('0' <= token[k]);
        }
    }
    assert(!token.contains('@')) by {
        if token.contains('@') {
            let k = choose|k: int| 0 <= k < token.len() && token[k] == '@';
            assert('0' <= token[k] <= '9' || 'a' <= token[k] <= 'f' || 'A' <= token[k] <= 'F');
        }
    }
    if name == base + "-"@ + token + ".scope"@ {
        let rest = base + "-"@ + token;
        lemma_endings(rest, ".scope"@);
        lemma_last_part(base, '-', token);
    } else {
        let rest = base + "@"@ + token;
        lemma_endings(rest, ".service"@);
        assert(!ends_with(name, ".scope"@)) by {
            if ends_with(name, ".scope"@) {
                assert(name.last() == ".service"@.last());
                assert(name[name.len() - 2] == ".service"@[6]);
                assert(name.skip(name.len() - 6)[4] == name[name.len() - 2]);
                assert(".scope"@[4] == 'p');
            }
        }
        lemma_last_part(base, '@', token);
    }
}

proof fn lemma_unit_target(entries: Seq<EntryView>, base: Seq<char>, i: int)
    requires
        0 <= i < entries.len(),
        unit_is_of(base, entries[i]),
        forall|k: int|
            0 <= k < entries.len() && k != i && unit_is_of(base, #[trigger] entries[k])
                ==> byte_len(entries[k].id) < byte_len(entries[i].id),
    ensures
        unit_target(entries, base) == Some(entries[i].id),
    decreases entries.len(),
{
    let front = entries.drop_last();
    let last = entries.last();
    lemma_unit_is_of(base, last);
    assert(last == entries[entries.len() - 1]);
    if i < entries.len() - 1 {
        assert forall|k: int|
            0 <= k < front.len() && k != i && unit_is_of(base, #[trigger] front[k]) implies byte_len(
            front[k].id,
        ) < byte_len(front[i].id) by {
            assert(front[k] == entries[k]);
        }
        lemma_unit_target(front, base, i);
    } else {
        lemma_shorter_target(front, base, byte_len(last.id));
    }
}

proof fn lemma_shorter_target(entries: Seq<EntryView>, base: Seq<char>, length: nat)
    requires
        forall|k: int|
            0 <= k < entries.len() && unit_is_of(base, #[trigger] entries[k]) ==> byte_len(
                entries[k].id,
            ) < length,
    ensures
        match unit_target(entries, base) {
            Some(id) => byte_len(id) < length,
            None => true,
        },
    decreases entries.len(),
{
    if entries.len() > 0 {
        let front = entries.drop_last();
        lemma_unit_is_of(base, entries.last());
        assert(entries.last() == entries[entries.len() - 1]);
        assert forall|k: int|
            0 <= k < front.len() && unit_is_of(base, #[trigger] front[k]) implies byte_len(
            front[k].id,
        ) < length by {
            assert(front[k] == entries[k]);
        }
        lemma_shorter_target(front, base, length);
    }
}

/// A window in the control group of a unit that was made for an application belongs
/// to that application, whatever its class: to the one with the longest id where the
/// unit's name fits several.
pub proof fn lemma_unit_owner(
    entries: Seq<EntryView>,
    window: Window,
    path: Seq<char>,
    base: Seq<char>,
    token: Seq<char>,
    i: int,
)
    requires
        is_unit_for(unescaped_name(after_last(path, '/')), base, token),
        0 <= i < entries.len(),
        unit_is_of(base, entries[i]),
        forall|k: int|
            0 <= k < entries.len() && k != i && unit_is_of(base, #[trigger] entries[k])
                ==> byte_len(entries[k].id) < byte_len(entries[i].id),
    ensures
        target_of(entries, window, Some(path)) == entries[i].id,
{
    lemma_unit_base(unescaped_name(after_last(path, '/')), base, token);
    lemma_unit_target(entries, base, i);
}

proof fn lemma_no_unit_target(entries: Seq<EntryView>, base: Seq<char>)
    requires
        forall|k: int| 0 <= k < entries.len() ==> !unit_is_of(base, #[trigger] entries[k]),
    ensures
        unit_target(entries, base) is None,
    decreases entries.len(),
{
    if entries.len() > 0 {
        let front = entries.drop_last();
        lemma_unit_is_of(base, entries.last());
        assert(entries.last() == entries[entries.len() - 1]);
        assert forall|k: int| 0 <= k < front.len() implies !unit_is_of(base, #[trigger] front[k]) by {
            assert(front[k] == entries[k]);
        }
        lemma_no_unit_target(front, base);
    }
}

/// A control group whose name is not that of a unit for one instance of a known
/// application decides nothing: the window's class does.
pub proof fn lemma_silent_cgroup(entries: Seq<EntryView>, window: Window, path: Seq<char>)
    requires
        forall|base: Seq<char>, token: Seq<char>, k: int|
            #![trigger is_unit_for(unescaped_name(after_last(path, '/')), base, token), entries[k]]
            0 <= k < entries.len() && is_unit_for(
                unescaped_name(after_last(path, '/')),
                base,
                token,
            ) ==> !unit_is_of(base, entries[k]),
    ensures
        target_of(entries, window, Some(path)) == target_of(entries, window, None),
{
    let name = unescaped_name(after_last(path, '/'));
    if unit_base(name) is Some {
        let base = unit_base(name)->0;
        let token = lemma_unit_parts(name);
        assert forall|k: int| 0 <= k < entries.len() implies !unit_is_of(
            base,
            #[trigger] entries[k],
        ) by {
            assert(is_unit_for(name, base, token));
        }
        lemma_no_unit_target(entries, base);
    }
}

proof fn lemma_unit_parts(name: Seq<char>) -> (token: Seq<char>)
    requires
        unit_base(name) is Some,
    ensures
        is_unit_for(name, unit_base(name)->0, token),
{
    reveal_strlit("-");
    reveal_strlit("@");
    assert("-"@ =~= seq!['-']);
    assert("@"@ =~= seq!['@']);
    let scope = strip_suffix(name, ".scope"@);
    let (rest, separator) = match scope {
        Some(rest) => (rest, '-'),
        None => (strip_suffix(name, ".service"@)->0, '@'),
    };
    lemma_after_last(rest, separator);
    let token = after_last(rest, separator);
    lemma_endings(name, ".scope"@);
    lemma_endings(name, ".service"@);
    assert(is_token(token)) by {
        assert(is_instance_token(token));
        assert forall|i: int| 0 <= i < token.len() implies ('0' <= #[trigger] token[i] <= '9' || 'a'
            <= token[i] <= 'f' || 'A' <= token[i] <= 'F') by {
            assert(is_hex_digit(token[i]));
        }
    }
    token
}

// ---------------------------------------------------------------------
// Escapes

/// The byte is the hexadecimal digit with this value.
pub open spec fn is_digit_for(byte: u8, value: u8) -> bool {
    ||| value < 10 && byte == 48 + value
    ||| 10 <= value < 16 && (byte == 55 + value || byte == 87 + value)
}

/// A backslash, an `x` and two hexadecimal digits stand for one byte, the one with
/// that number.
pub proof fn lemma_escape(high: u8, low: u8, h: u8, l: u8, rest: Seq<u8>)
    requires
        is_digit_for(high, h),
        is_digit_for(low, l),
    ensures
        unescaped(seq![92u8, 120u8, high, low] + rest) == seq![(16 * h + l) as u8] + unescaped(rest),
{
    let bytes = seq![92u8, 120u8, high, low] + rest;
    assert(bytes.skip(4) =~= rest);
    assert(escaped_byte(bytes) == hex_pair(high, low));
}

/// So do a plus sign and one digit; anything else behind the `x` stands for itself.
pub proof fn lemma_escape_of_one(low: u8, l: u8, high: u8, rest: Seq<u8>)
    requires
        is_digit_for(low, l),
        high != 43,
        forall|h: u8| !is_digit_for(high, h),
    ensures
        unescaped(seq![92u8, 120u8, 43u8, low] + rest) == seq![l] + unescaped(rest),
        unescaped(seq![92u8, 120u8, high, low] + rest) == seq![92u8] + unescaped(
            seq![120u8, high, low] + rest,
        ),
{
    let bytes = seq![92u8, 120u8, 43u8, low] + rest;
    assert(bytes.skip(4) =~= rest);
    assert(escaped_byte(bytes) == hex_pair(43, low));
    let other = seq![92u8, 120u8, high, low] + rest;
    assert(other.skip(1) =~= seq![120u8, high, low] + rest);
    assert(escaped_byte(other) == hex_pair(high, low));
    assert(hex_pair(high, low) is None) by {
        if 48 <= high <= 57 {
            assert(is_digit_for(high, (high - 48) as u8));
        } else if 65 <= high <= 70 {
            assert(is_digit_for(high, (high - 55) as u8));
        } else if 97 <= high <= 102 {
            assert(is_digit_for(high, (high - 87) as u8));
        }
    }
}

/// A byte other than a backslash stands for itself.
pub proof fn lemma_unescaped_byte(byte: u8, rest: Seq<u8>)
    requires
        byte != 92,
    ensures
        unescaped(seq![byte] + rest) == seq![byte] + unescaped(rest),
{
    let bytes = seq![byte] + rest;
    assert(bytes.skip(1) =~= rest);
    assert(escaped_byte(bytes) is None);
}

proof fn lemma_no_escapes(bytes: Seq<u8>)
    requires
        !bytes.contains(92),
    ensures
        unescaped(bytes) == bytes,
    decreases bytes.len(),
{
    if bytes.len() > 0 {
        let rest = bytes.skip(1);
        assert(bytes.contains(bytes[0]));
        assert forall|i: int| 0 <= i < rest.len() implies rest[i] != 92 by {
            assert(rest[i] == bytes[i + 1]);
            assert(bytes.contains(bytes[i + 1]));
        }
        lemma_no_escapes(rest);
        assert(seq![bytes[0]] + rest =~= bytes);
    }
}

/// The name of a unit is the text that its bytes are without their escapes.
pub proof fn lemma_unescaped_name(name: Seq<char>, text: Seq<char>)
    requires
        unescaped(encode_utf8(name)) == encode_utf8(text),
    ensures
        unescaped_name(name) == text,
{
    vstd::utf8::encode_utf8_valid_utf8(text);
    vstd::utf8::encode_utf8_decode_utf8(text);
}

/// A name without escapes is what it says.
pub proof fn lemma_plain_unit_name(name: Seq<char>)
    requires
        !encode_utf8(name).contains(92),
    ensures
        unescaped_name(name) == name,
{
    lemma_no_escapes(encode_utf8(name));
    lemma_unescaped_name(name, name);
}

} // verus!

//! Windows as the compositor reports them, and requests to it.

use vstd::prelude::*;
use crate::text::{
    alphanumeric_char, append, append_text, ascii_lowercase, chars_of, hex_char,
    is_ascii_alphanumeric, is_hex_digit, lower_chars, same_chars, same_text, string_of,
    strip_prefix, texts, trim, trim_chars, trim_start_matches, without_beginnings, without_prefix,
};
use crate::transcript::{
    content_hash, flag_bytes, hash_bytes, lemma_flag_first, lemma_number_first, lemma_regroup, lemma_signed_first,
    lemma_small_first, lemma_text_first, number_bytes, signed_bytes, small_bytes, text_bytes,
    write_flag, write_number, write_signed, write_small, write_text,
};

verus! {

#[derive(Debug)]
pub struct Workspace {
    pub id: i64,
    pub name: String,
}

/// A window. `focus_rank` counts how many windows had the focus since this one:
/// zero for the focused window, the largest number for one that never had it.
#[derive(Debug)]
pub struct Client {
    pub address: String,
    pub class: String,
    pub initial_class: String,
    pub title: String,
    pub pid: u32,
    pub workspace: Workspace,
    pub focus_rank: i64,
    pub mapped: bool,
}

/// What a [`Client`] stands for.
#[verifier::ext_equal]
pub struct Window {
    pub address: Seq<char>,
    pub class: Seq<char>,
    pub initial_class: Seq<char>,
    pub title: Seq<char>,
    pub pid: u32,
    pub workspace_id: i64,
    pub workspace_name: Seq<char>,
    pub focus_rank: i64,
    pub mapped: bool,
}

impl View for Client {
    type V = Window;

    open spec fn view(&self) -> Window {
        Window {
            address: self.address@,
            class: self.class@,
            initial_class: self.initial_class@,
            title: self.title@,
            pid: self.pid,
            workspace_id: self.workspace.id,
            workspace_name: self.workspace.name@,
            focus_rank: self.focus_rank,
            mapped: self.mapped,
        }
    }
}

/// All windows at one time, in the order in which they had the focus.
#[derive(Debug)]
pub struct Snapshot {
    pub available: bool,
    pub revision: u64,
    pub clients: Vec<Client>,
}

pub open spec fn windows_of(clients: Seq<Client>) -> Seq<Window> {
    clients.map_values(|client: Client| client@)
}

/// `0x` and hexadecimal digits, but not the address of no window.
pub open spec fn is_address(address: Seq<char>) -> bool {
    match strip_prefix(address, "0x"@) {
        None => false,
        Some(digits) => digits.len() > 0 && (forall|i: int|
            0 <= i < digits.len() ==> is_hex_digit(#[trigger] digits[i])) && address != "0x0"@,
    }
}

pub fn valid_address(address: &str) -> (yes: bool)
    ensures
        yes == is_address(address@),
{
    if same_text(address, "0x0") {
        return false;
    }
    let chars = chars_of(address);
    match without_prefix(chars.as_slice(), "0x") {
        None => false,
        Some(digits) => {
            for i in 0..digits.len()
                invariant
                    strip_prefix(address@, "0x"@) == Some(digits@),
                    forall|k: int| 0 <= k < i ==> is_hex_digit(#[trigger] digits@[k]),
            {
                if !hex_char(digits[i]) {
                    return false;
                }
            }
            digits.len() > 0
        },
    }
}

/// The windows that can be addressed and are shown.
pub open spec fn shown(clients: Seq<Client>) -> Seq<Client>
    decreases clients.len(),
{
    if clients.len() == 0 {
        Seq::empty()
    } else {
        let before = shown(clients.drop_last());
        let client = clients.last();
        if client.mapped && is_address(client.address@) {
            before.push(client)
        } else {
            before
        }
    }
}

/// How many windows of a list in order stand before a window of this rank that
/// comes in last.
pub open spec fn rank_place(clients: Seq<Client>, rank: i64) -> int
    decreases clients.len(),
{
    if clients.len() == 0 || clients.last().focus_rank <= rank {
        clients.len() as int
    } else {
        rank_place(clients.drop_last(), rank)
    }
}

/// The windows by rank; windows of one rank stay in their order.
pub open spec fn ranked(clients: Seq<Client>) -> Seq<Client>
    decreases clients.len(),
{
    if clients.len() == 0 {
        Seq::empty()
    } else {
        let before = ranked(clients.drop_last());
        let client = clients.last();
        before.insert(rank_place(before, client.focus_rank), client)
    }
}

proof fn lemma_rank_place(clients: Seq<Client>, rank: i64)
    requires
        forall|i: int, j: int|
            0 <= i <= j < clients.len() ==> (#[trigger] clients[i]).focus_rank <= (
            #[trigger] clients[j]).focus_rank,
    ensures
        0 <= rank_place(clients, rank) <= clients.len(),
        forall|i: int|
            0 <= i < rank_place(clients, rank) ==> (#[trigger] clients[i]).focus_rank <= rank,
        forall|i: int|
            rank_place(clients, rank) <= i < clients.len() ==> (#[trigger] clients[i]).focus_rank
                > rank,
    decreases clients.len(),
{
    if clients.len() > 0 && clients.last().focus_rank > rank {
        lemma_rank_place(clients.drop_last(), rank);
        assert forall|i: int| 0 <= i < rank_place(clients, rank) implies (
        #[trigger] clients[i]).focus_rank <= rank by {
            assert(clients.drop_last()[i] == clients[i]);
        }
        assert forall|i: int| rank_place(clients, rank) <= i < clients.len() implies (
        #[trigger] clients[i]).focus_rank > rank by {
            if i < clients.len() - 1 {
                assert(clients.drop_last()[i] == clients[i]);
            }
        }
    } else if clients.len() > 0 {
        assert forall|i: int| 0 <= i < clients.len() implies (#[trigger] clients[i]).focus_rank
            <= rank by {
            assert(clients[i].focus_rank <= clients[clients.len() - 1].focus_rank);
        }
    }
}

/// Ordering the windows loses none and puts the one with the focus first.
pub proof fn lemma_ranked(clients: Seq<Client>)
    ensures
        forall|i: int, j: int|
            0 <= i <= j < ranked(clients).len() ==> (#[trigger] ranked(clients)[i]).focus_rank <= (
            #[trigger] ranked(clients)[j]).focus_rank,
        ranked(clients).to_multiset() == clients.to_multiset(),
        ranked(clients).len() == clients.len(),
    decreases clients.len(),
{
    if clients.len() > 0 {
        let front = clients.drop_last();
        let client = clients.last();
        lemma_ranked(front);
        let before = ranked(front);
        lemma_rank_place(before, client.focus_rank);
        let place = rank_place(before, client.focus_rank);
        let now = before.insert(place, client);
        assert forall|i: int, j: int| 0 <= i <= j < now.len() implies (
        #[trigger] now[i]).focus_rank <= (#[trigger] now[j]).focus_rank by {
            let x = if i < place { i } else { i - 1 };
            let y = if j < place { j } else { j - 1 };
            if i != place {
                assert(now[i] == before[x]);
            }
            if j != place {
                assert(now[j] == before[y]);
            }
        }
        before.to_multiset_ensures();
        vstd::seq_lib::lemma_multiset_commutative(front, seq![client]);
        assert(clients =~= front + seq![client]);
        assert(now =~= before.take(place) + seq![client] + before.skip(place));
        vstd::seq_lib::lemma_multiset_commutative(before.take(place), seq![client]);
        vstd::seq_lib::lemma_multiset_commutative(
            before.take(place) + seq![client],
            before.skip(place),
        );
        vstd::seq_lib::lemma_multiset_commutative(before.take(place), before.skip(place));
        assert(before =~= before.take(place) + before.skip(place));
        assert(now.to_multiset() =~= clients.to_multiset());
    } else {
        assert(ranked(clients) =~= clients);
    }
}

/// What is written of a window first: its address, its classes and its title.
pub open spec fn window_texts(w: Window) -> Seq<u8> {
    text_bytes(w.address) + (text_bytes(w.class) + (text_bytes(w.initial_class) + text_bytes(
        w.title,
    )))
}

/// What is written of a window next: its process, its workspace and its state.
pub open spec fn window_state(w: Window) -> Seq<u8> {
    small_bytes(w.pid) + (signed_bytes(w.workspace_id) + (text_bytes(w.workspace_name) + (
    signed_bytes(w.focus_rank) + flag_bytes(w.mapped))))
}

/// A window written down as bytes.
pub open spec fn window_bytes(w: Window) -> Seq<u8> {
    window_texts(w) + window_state(w)
}

/// Windows one after another.
pub open spec fn joined_windows(list: Seq<Window>) -> Seq<u8>
    decreases list.len(),
{
    if list.len() == 0 {
        Seq::empty()
    } else {
        window_bytes(list[0]) + joined_windows(list.skip(1))
    }
}

/// All windows written down: how many there are, and each of them.
pub open spec fn windows_bytes(list: Seq<Window>) -> Seq<u8> {
    number_bytes(list.len() as u64) + joined_windows(list)
}

proof fn lemma_texts_apart(w: Window, x: Seq<u8>)
    ensures
        window_texts(w) + x == text_bytes(w.address) + (text_bytes(w.class) + (text_bytes(
            w.initial_class,
        ) + (text_bytes(w.title) + x))),
{
    let t2 = text_bytes(w.initial_class) + text_bytes(w.title);
    let t1 = text_bytes(w.class) + t2;
    lemma_regroup(text_bytes(w.address), t1, x);
    lemma_regroup(text_bytes(w.class), t2, x);
    lemma_regroup(text_bytes(w.initial_class), text_bytes(w.title), x);
}

proof fn lemma_state_apart(w: Window, x: Seq<u8>)
    ensures
        window_state(w) + x == small_bytes(w.pid) + (signed_bytes(w.workspace_id) + (text_bytes(
            w.workspace_name,
        ) + (signed_bytes(w.focus_rank) + (flag_bytes(w.mapped) + x)))),
{
    let t3 = signed_bytes(w.focus_rank) + flag_bytes(w.mapped);
    let t2 = text_bytes(w.workspace_name) + t3;
    let t1 = signed_bytes(w.workspace_id) + t2;
    lemma_regroup(small_bytes(w.pid), t1, x);
    lemma_regroup(signed_bytes(w.workspace_id), t2, x);
    lemma_regroup(text_bytes(w.workspace_name), t3, x);
    lemma_regroup(signed_bytes(w.focus_rank), flag_bytes(w.mapped), x);
}

proof fn lemma_texts_first(a: Window, x: Seq<u8>, b: Window, y: Seq<u8>)
    requires
        window_texts(a) + x == window_texts(b) + y,
    ensures
        a.address == b.address,
        a.class == b.class,
        a.initial_class == b.initial_class,
        a.title == b.title,
        x == y,
{
    let a3 = text_bytes(a.title) + x;
    let b3 = text_bytes(b.title) + y;
    let a2 = text_bytes(a.initial_class) + a3;
    let b2 = text_bytes(b.initial_class) + b3;
    lemma_texts_apart(a, x);
    lemma_texts_apart(b, y);
    lemma_text_first(a.address, text_bytes(a.class) + a2, b.address, text_bytes(b.class) + b2);
    lemma_text_first(a.class, a2, b.class, b2);
    lemma_text_first(a.initial_class, a3, b.initial_class, b3);
    lemma_text_first(a.title, x, b.title, y);
}

proof fn lemma_state_first(a: Window, x: Seq<u8>, b: Window, y: Seq<u8>)
    requires
        window_state(a) + x == window_state(b) + y,
    ensures
        a.pid == b.pid,
        a.workspace_id == b.workspace_id,
        a.workspace_name == b.workspace_name,
        a.focus_rank == b.focus_rank,
        a.mapped == b.mapped,
        x == y,
{
    let a4 = flag_bytes(a.mapped) + x;
    let b4 = flag_bytes(b.mapped) + y;
    let a3 = signed_bytes(a.focus_rank) + a4;
    let b3 = signed_bytes(b.focus_rank) + b4;
    let a2 = text_bytes(a.workspace_name) + a3;
    let b2 = text_bytes(b.workspace_name) + b3;
    lemma_state_apart(a, x);
    lemma_state_apart(b, y);
    lemma_small_first(
        a.pid,
        signed_bytes(a.workspace_id) + a2,
        b.pid,
        signed_bytes(b.workspace_id) + b2,
    );
    lemma_signed_first(a.workspace_id, a2, b.workspace_id, b2);
    lemma_text_first(a.workspace_name, a3, b.workspace_name, b3);
    lemma_signed_first(a.focus_rank, a4, b.focus_rank, b4);
    lemma_flag_first(a.mapped, x, b.mapped, y);
}

proof fn lemma_window_first(a: Window, x: Seq<u8>, b: Window, y: Seq<u8>)
    requires
        window_bytes(a) + x == window_bytes(b) + y,
    ensures
        a == b,
        x == y,
{
    lemma_regroup(window_texts(a), window_state(a), x);
    lemma_regroup(window_texts(b), window_state(b), y);
    lemma_texts_first(a, window_state(a) + x, b, window_state(b) + y);
    lemma_state_first(a, x, b, y);
}

proof fn lemma_joined_windows(a: Seq<Window>, b: Seq<Window>)
    requires
        a.len() == b.len(),
        joined_windows(a) == joined_windows(b),
    ensures
        a == b,
    decreases a.len(),
{
    if a.len() > 0 {
        lemma_window_first(
            a[0],
            joined_windows(a.skip(1)),
            b[0],
            joined_windows(b.skip(1)),
        );
        lemma_joined_windows(a.skip(1), b.skip(1));
        assert(a =~= seq![a[0]] + a.skip(1));
        assert(b =~= seq![b[0]] + b.skip(1));
    } else {
        assert(a =~= b);
    }
}

/// Different windows are written down differently, so a revision follows every
/// change of them.
pub proof fn lemma_windows_bytes(a: Seq<Window>, b: Seq<Window>)
    requires
        a.len() <= u64::MAX,
        b.len() <= u64::MAX,
        windows_bytes(a) == windows_bytes(b),
    ensures
        a == b,
{
    lemma_number_first(a.len() as u64, joined_windows(a), b.len() as u64, joined_windows(b));
    lemma_joined_windows(a, b);
}

fn write_window_texts(bytes: &mut Vec<u8>, client: &Client)
    ensures
        final(bytes)@ == old(bytes)@ + window_texts(client@),
{
    write_text(bytes, client.address.as_str());
    write_text(bytes, client.class.as_str());
    write_text(bytes, client.initial_class.as_str());
    write_text(bytes, client.title.as_str());
    assert(bytes@ =~= old(bytes)@ + window_texts(client@));
}

fn write_window_state(bytes: &mut Vec<u8>, client: &Client)
    ensures
        final(bytes)@ == old(bytes)@ + window_state(client@),
{
    write_small(bytes, client.pid);
    write_signed(bytes, client.workspace.id);
    write_text(bytes, client.workspace.name.as_str());
    write_signed(bytes, client.focus_rank);
    write_flag(bytes, client.mapped);
    assert(bytes@ =~= old(bytes)@ + window_state(client@));
}

fn write_window(bytes: &mut Vec<u8>, client: &Client)
    ensures
        final(bytes)@ == old(bytes)@ + window_bytes(client@),
{
    let ghost before = bytes@;
    write_window_texts(bytes, client);
    write_window_state(bytes, client);
    proof {
        lemma_regroup(before, window_texts(client@), window_state(client@));
    }
}

fn windows_revision(clients: &Vec<Client>) -> (revision: u64)
    ensures
        revision == content_hash(windows_bytes(windows_of(clients@))),
{
    let ghost all = windows_of(clients@);
    let mut bytes: Vec<u8> = Vec::new();
    write_number(&mut bytes, clients.len() as u64);
    let ghost start = bytes@;
    assert(all.skip(0) =~= all);
    for i in 0..clients.len()
        invariant
            all == windows_of(clients@),
            start + joined_windows(all) == bytes@ + joined_windows(all.skip(i as int)),
    {
        let ghost before = bytes@;
        let ghost left = all.skip(i as int);
        assert(left[0] == clients@[i as int]@);
        assert(left.skip(1) =~= all.skip(i + 1));
        write_window(&mut bytes, &clients[i]);
        assert(before + (window_bytes(left[0]) + joined_windows(left.skip(1))) =~= bytes@
            + joined_windows(all.skip(i + 1)));
    }
    assert(all.skip(clients@.len() as int).len() == 0);
    assert(bytes@ =~= windows_bytes(all));
    hash_bytes(bytes.as_slice())
}

fn insert_ranked(clients: &mut Vec<Client>, client: Client)
    ensures
        final(clients)@ == old(clients)@.insert(
            rank_place(old(clients)@, client.focus_rank),
            client,
        ),
{
    let ghost all = clients@;
    let rank = client.focus_rank;
    let mut place = clients.len();
    assert(all.take(place as int) =~= all);
    while place > 0 && clients[place - 1].focus_rank > rank
        invariant
            place <= clients@.len(),
            clients@ == all,
            rank == client.focus_rank,
            rank_place(all, rank) == rank_place(all.take(place as int), rank),
        decreases place,
    {
        assert(all.take(place as int).last() == all[place - 1]);
        assert(all.take(place as int).drop_last() =~= all.take(place - 1));
        place = place - 1;
    }
    proof {
        if place > 0 {
            assert(all.take(place as int).last() == all[place - 1]);
        }
        assert(rank_place(all, rank) == place);
    }
    clients.insert(place, client);
}

/// The name under which clients know a window.
pub open spec fn window_name(address: Seq<char>) -> Seq<char> {
    "window-"@ + ascii_lowercase(trim_start_matches(address, "0x"@))
}

pub fn window_id(address: &str) -> (id: String)
    ensures
        id@ == window_name(address@),
{
    let address = chars_of(address);
    let digits = lower_chars(without_beginnings(address.as_slice(), "0x"));
    let mut id = chars_of("window-");
    append(&mut id, digits.as_slice());
    string_of(id.as_slice())
}

impl Snapshot {
    /// The compositor cannot be asked.
    pub fn unavailable() -> (snapshot: Self)
        ensures
            !snapshot.available,
            snapshot.revision == 0,
            snapshot.clients@.len() == 0,
    {
        Snapshot { available: false, revision: 0, clients: Vec::new() }
    }

    /// The windows that the compositor listed: those that are shown, the one with
    /// the focus first.
    pub fn from_clients(clients: Vec<Client>) -> (snapshot: Self)
        ensures
            snapshot.available,
            snapshot.clients@ == ranked(shown(clients@)),
            snapshot.revision == content_hash(windows_bytes(windows_of(snapshot.clients@))),
    {
        let ghost all = clients@;
        let mut rest = clients;
        let mut kept: Vec<Client> = Vec::new();
        let ghost mut done: int = 0;
        while rest.len() > 0
            invariant
                0 <= done <= all.len(),
                rest@ == all.skip(done),
                kept@ == ranked(shown(all.take(done))),
            decreases rest@.len(),
        {
            let client = rest.remove(0);
            proof {
                assert(client == all[done]);
                assert(all.take(done + 1).drop_last() =~= all.take(done));
                assert(all.take(done + 1).last() == all[done]);
                assert(rest@ =~= all.skip(done + 1));
            }
            if client.mapped && valid_address(client.address.as_str()) {
                proof {
                    let before = shown(all.take(done));
                    assert(before.push(client).drop_last() =~= before);
                }
                insert_ranked(&mut kept, client);
            }
            proof {
                done = done + 1;
            }
        }
        assert(all.take(done) =~= all);
        let revision = windows_revision(&kept);
        Snapshot { available: true, revision, clients: kept }
    }

    pub fn by_window_id(&self, id: &str) -> (client: Option<&Client>)
        ensures
            match client {
                Some(c) => exists|i: int|
                    0 <= i < self.clients@.len() && *c == #[trigger] self.clients@[i]
                        && window_name(c.address@) == id@ && forall|j: int|
                        0 <= j < i ==> window_name((#[trigger] self.clients@[j]).address@) != id@,
                None => forall|i: int|
                    0 <= i < self.clients@.len() ==> window_name(
                        (#[trigger] self.clients@[i]).address@,
                    ) != id@,
            },
    {
        for i in 0..self.clients.len()
            invariant
                forall|j: int|
                    0 <= j < i ==> window_name((#[trigger] self.clients@[j]).address@) != id@,
        {
            let name = window_id(self.clients[i].address.as_str());
            if same_text(name.as_str(), id) {
                return Some(&self.clients[i]);
            }
        }
        None
    }
}

/// Why a request to the compositor is not made.
#[derive(Debug, Clone, Copy, PartialEq, Eq, Structural)]
pub enum RequestError {
    InvalidAddress,
    InvalidWorkspace,
}

impl RequestError {
    pub open spec fn text(self) -> Seq<char> {
        match self {
            RequestError::InvalidAddress => "window address is invalid"@,
            RequestError::InvalidWorkspace => "workspace is invalid"@,
        }
    }

    pub fn message(&self) -> (text: &'static str)
        ensures
            text@ == self.text(),
    {
        match self {
            RequestError::InvalidAddress => "window address is invalid",
            RequestError::InvalidWorkspace => "workspace is invalid",
        }
    }
}

pub fn address_selector(address: &str) -> (selector: Result<String, RequestError>)
    ensures
        match selector {
            Ok(s) => is_address(address@) && s@ == "address:"@ + address@,
            Err(e) => !is_address(address@) && e == RequestError::InvalidAddress,
        },
{
    if valid_address(address) {
        let mut selector = chars_of("address:");
        append_text(&mut selector, address);
        Ok(string_of(selector.as_slice()))
    } else {
        Err(RequestError::InvalidAddress)
    }
}

/// A character that may stand in the name of a workspace: none of those that
/// would end the name within a request.
pub open spec fn is_workspace_char(c: char) -> bool {
    is_ascii_alphanumeric(c) || c == '_' || c == '-' || c == '.' || c == '+' || c == ':'
}

pub open spec fn is_workspace(workspace: Seq<char>) -> bool {
    workspace.len() > 0 && forall|i: int|
        0 <= i < workspace.len() ==> is_workspace_char(#[trigger] workspace[i])
}

pub fn workspace_selector(workspace: &str) -> (selector: Result<&str, RequestError>)
    ensures
        match selector {
            Ok(s) => is_workspace(workspace@) && s@ == workspace@,
            Err(e) => !is_workspace(workspace@) && e == RequestError::InvalidWorkspace,
        },
{
    let chars = chars_of(workspace);
    for i in 0..chars.len()
        invariant
            chars@ == workspace@,
            forall|k: int| 0 <= k < i ==> is_workspace_char(#[trigger] chars@[k]),
    {
        let c = chars[i];
        if !(alphanumeric_char(c) || c == '_' || c == '-' || c == '.' || c == '+' || c == ':') {
            assert(!is_workspace_char(workspace@[i as int]));
            return Err(RequestError::InvalidWorkspace);
        }
    }
    if chars.len() == 0 {
        Err(RequestError::InvalidWorkspace)
    } else {
        Ok(workspace)
    }
}

/// Two ways to make one request; the second is for compositors that do not know
/// the first.
#[derive(Debug)]
pub struct DispatchRequest {
    pub first: Vec<String>,
    pub second: Vec<String>,
    /// What to say when both are refused.
    pub refusal: &'static str,
}

fn text_of(parts: &[&str]) -> (text: String)
    ensures
        text@ == concatenated(parts@),
{
    let mut chars: Vec<char> = Vec::new();
    for i in 0..parts.len()
        invariant
            chars@ == concatenated(parts@.take(i as int)),
    {
        assert(parts@.take(i + 1).drop_last() =~= parts@.take(i as int));
        append_text(&mut chars, parts[i]);
    }
    assert(parts@.take(parts@.len() as int) =~= parts@);
    string_of(chars.as_slice())
}

/// Texts put together.
pub open spec fn concatenated(parts: Seq<&str>) -> Seq<char>
    decreases parts.len(),
{
    if parts.len() == 0 {
        Seq::empty()
    } else {
        concatenated(parts.drop_last()) + parts.last()@
    }
}

fn arguments(parts: &[&str]) -> (list: Vec<String>)
    ensures
        texts(list@) == parts@.map_values(|part: &str| part@),
{
    let ghost f = |part: &str| part@;
    let mut list: Vec<String> = Vec::new();
    for i in 0..parts.len()
        invariant
            f == (|part: &str| part@),
            texts(list@) == parts@.take(i as int).map_values(f),
    {
        let ghost before = texts(list@);
        list.push(parts[i].to_owned());
        assert(texts(list@) =~= before.push(parts@[i as int]@));
        assert(parts@.take(i + 1).map_values(f) =~= before.push(parts@[i as int]@));
    }
    assert(parts@.take(parts@.len() as int) =~= parts@);
    list
}

/// Asks for the focus.
pub fn focus_request(address: &str) -> (request: Result<DispatchRequest, RequestError>)
    ensures
        match request {
            Err(e) => !is_address(address@) && e == RequestError::InvalidAddress,
            Ok(r) => {
                let selector = "address:"@ + address@;
                &&& is_address(address@)
                &&& texts(r.first@) == seq![
                    "dispatch"@,
                    "hl.dsp.focus({ window = '"@ + selector + "' })"@,
                ]
                &&& texts(r.second@) == seq!["dispatch"@, "focuswindow"@, selector]
                &&& r.refusal@ == "Hyprland rejected the focus request"@
            },
        },
{
    let selector = match address_selector(address) {
        Ok(selector) => selector,
        Err(e) => {
            return Err(e);
        },
    };
    let parts = ["hl.dsp.focus({ window = '", selector.as_str(), "' })"];
    let lua = text_of(&parts);
    let first = ["dispatch", lua.as_str()];
    let second = ["dispatch", "focuswindow", selector.as_str()];
    let request = DispatchRequest {
        first: arguments(&first),
        second: arguments(&second),
        refusal: "Hyprland rejected the focus request",
    };
    proof {
        reveal_with_fuel(concatenated, 4);
        assert(lua@ =~= "hl.dsp.focus({ window = '"@ + selector@ + "' })"@);
        assert(texts(request.first@) =~= seq!["dispatch"@, lua@]);
        assert(texts(request.second@) =~= seq!["dispatch"@, "focuswindow"@, selector@]);
    }
    Ok(request)
}

/// Asks for a window to close.
pub fn close_request(address: &str) -> (request: Result<DispatchRequest, RequestError>)
    ensures
        match request {
            Err(e) => !is_address(address@) && e == RequestError::InvalidAddress,
            Ok(r) => {
                let selector = "address:"@ + address@;
                &&& is_address(address@)
                &&& texts(r.first@) == seq![
                    "dispatch"@,
                    "hl.dsp.window.close({ window = '"@ + selector + "' })"@,
                ]
                &&& texts(r.second@) == seq!["dispatch"@, "closewindow"@, selector]
                &&& r.refusal@ == "Hyprland rejected the close request"@
            },
        },
{
    let selector = match address_selector(address) {
        Ok(selector) => selector,
        Err(e) => {
            return Err(e);
        },
    };
    let parts = ["hl.dsp.window.close({ window = '", selector.as_str(), "' })"];
    let lua = text_of(&parts);
    let first = ["dispatch", lua.as_str()];
    let second = ["dispatch", "closewindow", selector.as_str()];
    let request = DispatchRequest {
        first: arguments(&first),
        second: arguments(&second),
        refusal: "Hyprland rejected the close request",
    };
    proof {
        reveal_with_fuel(concatenated, 4);
        assert(lua@ =~= "hl.dsp.window.close({ window = '"@ + selector@ + "' })"@);
        assert(texts(request.first@) =~= seq!["dispatch"@, lua@]);
        assert(texts(request.second@) =~= seq!["dispatch"@, "closewindow"@, selector@]);
    }
    Ok(request)
}

/// Asks for a window to move to a workspace without showing that workspace.
pub fn move_request(address: &str, workspace: &str) -> (request: Result<
    DispatchRequest,
    RequestError,
>)
    ensures
        match request {
            Err(e) => if is_address(address@) {
                !is_workspace(workspace@) && e == RequestError::InvalidWorkspace
            } else {
                e == RequestError::InvalidAddress
            },
            Ok(r) => {
                let selector = "address:"@ + address@;
                &&& is_address(address@)
                &&& is_workspace(workspace@)
                &&& texts(r.first@) == seq![
                    "dispatch"@,
                    "hl.dsp.window.move({ workspace = '"@ + workspace@
                        + "', follow = false, window = '"@ + selector + "' })"@,
                ]
                &&& texts(r.second@) == seq![
                    "dispatch"@,
                    "movetoworkspacesilent"@,
                    workspace@ + ","@ + selector,
                ]
                &&& r.refusal@ == "Hyprland rejected the workspace move request"@
            },
        },
{
    let selector = match address_selector(address) {
        Ok(selector) => selector,
        Err(e) => {
            return Err(e);
        },
    };
    let workspace = match workspace_selector(workspace) {
        Ok(workspace) => workspace,
        Err(e) => {
            return Err(e);
        },
    };
    let parts = [
        "hl.dsp.window.move({ workspace = '",
        workspace,
        "', follow = false, window = '",
        selector.as_str(),
        "' })",
    ];
    let lua = text_of(&parts);
    let parts = [workspace, ",", selector.as_str()];
    let argument = text_of(&parts);
    let first = ["dispatch", lua.as_str()];
    let second = ["dispatch", "movetoworkspacesilent", argument.as_str()];
    let request = DispatchRequest {
        first: arguments(&first),
        second: arguments(&second),
        refusal: "Hyprland rejected the workspace move request",
    };
    proof {
        reveal_with_fuel(concatenated, 6);
        assert(lua@ =~= "hl.dsp.window.move({ workspace = '"@ + workspace@
            + "', follow = false, window = '"@ + selector@ + "' })"@);
        assert(argument@ =~= workspace@ + ","@ + selector@);
        assert(texts(request.first@) =~= seq!["dispatch"@, lua@]);
        assert(texts(request.second@) =~= seq!["dispatch"@, "movetoworkspacesilent"@, argument@]);
    }
    Ok(request)
}

/// Whether the compositor did what it was asked: its command succeeded and said so.
pub fn dispatch_accepted(success: bool, output: &str) -> (yes: bool)
    ensures
        yes == (success && trim(output@) == "ok"@),
{
    let output = chars_of(output);
    let ok = chars_of("ok");
    success && same_chars(trim_chars(output.as_slice()), ok.as_slice())
}

} // verus!

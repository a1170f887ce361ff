//! Which windows there are.

use vstd::prelude::*;
use crate::hyprland::{is_address, is_workspace, lemma_ranked, rank_place, ranked, shown, Client};

verus! {

/// The windows are those that are mapped and have an address, in their order.
pub proof fn lemma_shown(clients: Seq<Client>)
    ensures
        shown(clients) == clients.filter(
            |client: Client| client.mapped && is_address(client.address@),
        ),
    decreases clients.len(),
{
    reveal(Seq::filter);
    if clients.len() > 0 {
        lemma_shown(clients.drop_last());
    }
}

/// A window that is mapped and has an address is one of them, and no other is.
pub proof fn lemma_is_shown(clients: Seq<Client>, client: Client)
    ensures
        shown(clients).contains(client) == (clients.contains(client) && client.mapped && is_address(
            client.address@,
        )),
    decreases clients.len(),
{
    if clients.len() > 0 {
        let front = clients.drop_last();
        lemma_is_shown(front, client);
        let before = shown(front);
        let all = shown(clients);
        let last = clients.last();
        if front.contains(client) {
            let i = choose|i: int| 0 <= i < front.len() && front[i] == client;
            assert(clients[i] == client);
        }
        if clients.contains(client) && client != last {
            let i = choose|i: int| 0 <= i < clients.len() && clients[i] == client;
            assert(front[i] == client);
        }
        if before.contains(client) {
            let i = choose|i: int| 0 <= i < before.len() && before[i] == client;
            assert(all[i] == client);
        }
        if last.mapped && is_address(last.address@) {
            assert(all[all.len() - 1] == last);
            if all.contains(client) && client != last {
                let i = choose|i: int| 0 <= i < all.len() && all[i] == client;
                assert(before[i] == client);
            }
        }
    }
}

proof fn lemma_later_ranks(clients: Seq<Client>, rank: i64)
    requires
        forall|i: int, j: int|
            0 <= i <= j < clients.len() ==> (#[trigger] clients[i]).focus_rank <= (
            #[trigger] clients[j]).focus_rank,
    ensures
        0 <= rank_place(clients, rank) <= clients.len(),
        forall|i: int|
            rank_place(clients, rank) <= i < clients.len() ==> (#[trigger] clients[i]).focus_rank
                > rank,
    decreases clients.len(),
{
    if clients.len() > 0 && clients.last().focus_rank > rank {
        let front = clients.drop_last();
        lemma_later_ranks(front, rank);
        assert forall|i: int| rank_place(clients, rank) <= i < clients.len() implies (
        #[trigger] clients[i]).focus_rank > rank by {
            if i < front.len() {
                assert(front[i].focus_rank > rank);
            }
        }
    }
}

proof fn lemma_none_left(clients: Seq<Client>, rank: i64)
    requires
        forall|i: int| 0 <= i < clients.len() ==> (#[trigger] clients[i]).focus_rank != rank,
    ensures
        clients.filter(|client: Client| client.focus_rank == rank).len() == 0,
    decreases clients.len(),
{
    reveal(Seq::filter);
    if clients.len() > 0 {
        let front = clients.drop_last();
        assert forall|i: int| 0 <= i < front.len() implies (#[trigger] front[i]).focus_rank
            != rank by {
            assert(front[i] == clients[i]);
        }
        lemma_none_left(front, rank);
        assert(clients[clients.len() - 1].focus_rank != rank);
    }
}

/// Windows of one rank stay in the order in which the compositor lists them.
pub proof fn lemma_equal_ranks(clients: Seq<Client>, rank: i64)
    ensures
        ranked(clients).filter(|client: Client| client.focus_rank == rank) == clients.filter(
            |client: Client| client.focus_rank == rank,
        ),
    decreases clients.len(),
{
    let of_rank = |client: Client| client.focus_rank == rank;
    if clients.len() > 0 {
        let front = clients.drop_last();
        let last = clients.last();
        lemma_equal_ranks(front, rank);
        let before = ranked(front);
        lemma_ranked(front);
        lemma_later_ranks(before, last.focus_rank);
        let place = rank_place(before, last.focus_rank);
        let head = before.take(place);
        let tail = before.skip(place);
        assert(before =~= head + tail);
        assert(ranked(clients) =~= head + seq![last] + tail);
        Seq::filter_distributes_over_add(head, tail, of_rank);
        Seq::filter_distributes_over_add(head + seq![last], tail, of_rank);
        Seq::filter_distributes_over_add(head, seq![last], of_rank);
        Seq::filter_distributes_over_add(front, seq![last], of_rank);
        assert(clients =~= front + seq![last]);
        let own = seq![last].filter(of_rank);
        assert(own == if last.focus_rank == rank {
            seq![last]
        } else {
            Seq::<Client>::empty()
        }) by {
            reveal(Seq::filter);
            assert(seq![last].drop_last() =~= Seq::<Client>::empty());
            assert(Seq::<Client>::empty().filter(of_rank) =~= Seq::<Client>::empty());
            assert(Seq::<Client>::empty().push(last) =~= seq![last]);
        }
        if last.focus_rank == rank {
            assert forall|i: int| 0 <= i < tail.len() implies (#[trigger] tail[i]).focus_rank
                != rank by {
                assert(tail[i] == before[place + i]);
            }
            lemma_none_left(tail, rank);
            assert(tail.filter(of_rank) =~= Seq::<Client>::empty());
        }
        assert(ranked(clients).filter(of_rank) =~= clients.filter(of_rank));
    } else {
        assert(ranked(clients) =~= clients);
    }
}

/// A workspace is called by letters, digits and a few signs, and nothing that would end
/// its name in a request.
pub proof fn lemma_workspace(workspace: Seq<char>, i: int)
    ensures
        workspace.len() == 0 ==> !is_workspace(workspace),
        0 <= i < workspace.len() && (workspace[i] == '\'' || workspace[i] == ',' || workspace[i]
            == ' ' || workspace[i] == '"' || workspace[i] == ')' || workspace[i] == '}'
            || workspace[i] == '\\' || workspace[i] == '\n') ==> !is_workspace(workspace),
        workspace.len() > 0 && (forall|k: int|
            0 <= k < workspace.len() ==> ('a' <= #[trigger] workspace[k] <= 'z' || 'A'
                <= workspace[k] <= 'Z' || '0' <= workspace[k] <= '9' || workspace[k] == '_'
                || workspace[k] == '-' || workspace[k] == '.' || workspace[k] == '+'
                || workspace[k] == ':')) ==> is_workspace(workspace),
{
}

} // verus!

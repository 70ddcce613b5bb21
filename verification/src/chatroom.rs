//! The room: who is in it, and to whom a message goes.
//!
//! The room maps each active username to the sink through which that user is
//! reached. What a sink is, the room neither knows nor cares: it keeps it,
//! hands out references to it, and drops it when its user leaves.

use crate::username::{valid_username, Username};
use crate::wire::{entered_notice, format_entered, texts};
use vstd::prelude::*;

verus! {

/// A room's members as contracts speak of them: name and sink, in the order
/// in which they joined.
pub type Members<S> = Seq<(Seq<char>, S)>;

/// The members' names, in joining order.
pub open spec fn names<S>(members: Members<S>) -> Seq<Seq<char>> {
    members.map_values(|member: (Seq<char>, S)| member.0)
}

/// The members' sinks, in joining order.
pub open spec fn sinks<S>(members: Members<S>) -> Seq<S> {
    members.map_values(|member: (Seq<char>, S)| member.1)
}

/// Holds of every member but the one named `exclude`, if there is such a name.
pub open spec fn other_than<S>(exclude: Option<Seq<char>>) -> spec_fn((Seq<char>, S)) -> bool {
    |member: (Seq<char>, S)| exclude != Some(member.0)
}

/// The members a message reaches: all of them, in joining order, but the
/// one named `exclude`.
pub open spec fn audience<S>(members: Members<S>, exclude: Option<Seq<char>>) -> Members<S> {
    members.filter(other_than(exclude))
}

/// No name occurs twice, and every name is a valid username.
pub open spec fn well_formed<S>(members: Members<S>) -> bool {
    &&& names(members).no_duplicates()
    &&& forall|i: int| 0 <= i < members.len() ==> valid_username(#[trigger] members[i].0)
}

/// The name behind an optional username.
pub open spec fn name_of(username: Option<&Username>) -> Option<Seq<char>> {
    match username {
        Some(u) => Some(u@),
        None => None,
    }
}

/// A message on its way: the text, and the sinks it is to be written to, in
/// this order. A failed write to one of them is nobody else's concern.
pub struct Broadcast<'a, S> {
    pub message: String,
    pub recipients: Vec<&'a S>,
}

/// The name asked for is in use.
#[derive(Clone, Copy, Debug, PartialEq, Eq, Structural)]
pub struct NameConflict;

struct Member<S> {
    username: Username,
    sink: S,
}

/// The chat room's registry of active users.
pub struct Chatroom<S> {
    users: Vec<Member<S>>,
}

impl<S> View for Chatroom<S> {
    type V = Members<S>;

    closed spec fn view(&self) -> Members<S> {
        self.users@.map_values(|member: Member<S>| (member.username@, member.sink))
    }
}

/// Everybody but a stranger is everybody.
pub proof fn lemma_audience_without_stranger<S>(members: Members<S>, name: Seq<char>)
    requires
        !names(members).contains(name),
    ensures
        audience(members, Some(name)) == members,
    decreases members.len(),
{
    reveal(Seq::filter);
    if members.len() > 0 {
        let rest = members.drop_last();
        assert(names(rest) == names(members).drop_last());
        assert(names(members)[members.len() - 1] == members.last().0);
        assert forall|i: int| 0 <= i < names(rest).len() implies names(rest)[i] != name by {
            assert(names(members)[i] == names(rest)[i]);
        }
        lemma_audience_without_stranger(rest, name);
    }
}

/// With nobody excluded, the audience is everybody.
pub proof fn lemma_audience_of_all<S>(members: Members<S>)
    ensures
        audience(members, None) == members,
    decreases members.len(),
{
    reveal(Seq::filter);
    if members.len() > 0 {
        lemma_audience_of_all(members.drop_last());
    }
}

/// Where names are distinct, excluding the member at position `i` removes
/// that member and nobody else.
pub proof fn lemma_audience_without_member<S>(members: Members<S>, i: int)
    requires
        names(members).no_duplicates(),
        0 <= i < members.len(),
    ensures
        audience(members, Some(members[i].0)) == members.remove(i),
    decreases members.len(),
{
    reveal(Seq::filter);
    let name = members[i].0;
    let rest = members.drop_last();
    assert(names(rest) == names(members).drop_last());
    if i == members.len() - 1 {
        assert forall|j: int| 0 <= j < names(rest).len() implies names(rest)[j] != name by {
            assert(names(members)[j] == names(rest)[j]);
            assert(names(members)[i] == name);
        }
        assert(!names(rest).contains(name));
        lemma_audience_without_stranger(rest, name);
        assert(members.remove(i) == rest);
    } else {
        assert(names(members)[i] == name);
        assert(names(members)[members.len() - 1] == members.last().0);
        lemma_audience_without_member(rest, i);
        assert(rest.remove(i).push(members.last()) == members.remove(i));
    }
}

/// A message is never addressed to the member it excludes, and it is
/// addressed to every other member.
pub proof fn lemma_audience_is_everybody_else<S>(members: Members<S>, sender: Seq<char>)
    ensures
        !names(audience(members, Some(sender))).contains(sender),
        forall|i: int|
            0 <= i < members.len() && members[i].0 != sender ==> audience(
                members,
                Some(sender),
            ).contains(#[trigger] members[i]),
{
    let reached = audience(members, Some(sender));
    assert forall|i: int| 0 <= i < reached.len() implies names(reached)[i] != sender by {
        members.lemma_filter_pred(other_than(Some(sender)), i);
    }
    assert forall|i: int| 0 <= i < members.len() && members[i].0 != sender implies reached.contains(
        #[trigger] members[i],
    ) by {
        members.lemma_filter_contains(other_than(Some(sender)), i);
    }
}

/// Whoever a message reaches, it reaches once: an audience is as well formed
/// as the room it is taken from.
pub proof fn lemma_audience_is_well_formed<S>(members: Members<S>, exclude: Option<Seq<char>>)
    requires
        well_formed(members),
    ensures
        well_formed(audience(members, exclude)),
    decreases members.len(),
{
    reveal(Seq::filter);
    if members.len() > 0 {
        let rest = members.drop_last();
        let last = members.last();
        assert(well_formed(rest)) by {
            assert forall|i: int, j: int|
                0 <= i < rest.len() && 0 <= j < rest.len() && i != j implies names(rest)[i]
                != names(rest)[j] by {
                assert(names(members)[i] == names(rest)[i]);
                assert(names(members)[j] == names(rest)[j]);
            }
            assert forall|i: int| 0 <= i < rest.len() implies valid_username(
                #[trigger] rest[i].0,
            ) by {
                assert(rest[i] == members[i]);
            }
        }
        lemma_audience_is_well_formed(rest, exclude);
        let reached = audience(rest, exclude);
        if other_than::<S>(exclude)(last) {
            let all = reached.push(last);
            assert(audience(members, exclude) == all);
            assert forall|i: int, j: int|
                0 <= i < all.len() && 0 <= j < all.len() && i != j implies names(all)[i] != names(
                all,
            )[j] by {
                if i < reached.len() && j < reached.len() {
                    assert(names(reached)[i] == names(all)[i]);
                    assert(names(reached)[j] == names(all)[j]);
                } else {
                    let k = if i < reached.len() { i } else { j };
                    assert(reached.contains(reached[k]));
                    rest.lemma_filter_contains_rev(other_than(exclude), reached[k]);
                    let at = choose|at: int| 0 <= at < rest.len() && rest[at] == reached[k];
                    assert(names(members)[at] == reached[k].0);
                    assert(names(members)[members.len() - 1] == last.0);
                }
            }
            assert forall|i: int| 0 <= i < all.len() implies valid_username(
                #[trigger] all[i].0,
            ) by {
                if i < reached.len() {
                    assert(all[i] == reached[i]);
                } else {
                    assert(all[i] == members[members.len() - 1]);
                }
            }
        }
    }
}

impl<S> Chatroom<S> {
    /// The room's invariant: see [`well_formed`].
    pub open spec fn wf(&self) -> bool {
        well_formed(self@)
    }

    /// An empty room.
    pub fn new() -> (room: Self)
        ensures
            room@ == Members::<S>::empty(),
            room.wf(),
    {
        let room = Chatroom { users: Vec::new() };
        assert(room@ == Members::<S>::empty());
        room
    }

    /// Whether somebody in the room goes by this name.
    pub fn has_user(&self, username: &Username) -> (found: bool)
        ensures
            found == names(self@).contains(username@),
    {
        let mut i: usize = 0;
        while i < self.users.len()
            invariant
                i <= self.users.len(),
                forall|j: int| 0 <= j < i ==> names(self@)[j] != username@,
            decreases self.users.len() - i,
        {
            if self.users[i].username.same(username) {
                assert(names(self@)[i as int] == username@);
                return true;
            }
            i += 1;
        }
        false
    }

    /// The names in the room at this moment, in joining order.
    pub fn existing(&self) -> (roster: Vec<Username>)
        ensures
            texts(roster@) == names(self@),
    {
        let mut roster: Vec<Username> = Vec::new();
        let mut i: usize = 0;
        while i < self.users.len()
            invariant
                i <= self.users.len(),
                roster.len() == i,
                forall|j: int| 0 <= j < i ==> roster@[j]@ == names(self@)[j],
            decreases self.users.len() - i,
        {
            roster.push(self.users[i].username.clone());
            i += 1;
        }
        assert(texts(roster@) == names(self@));
        roster
    }

    /// Puts `username` into the room, reachable through `sink`, unless the
    /// name is in use: then the room stays as it is and the sink is dropped.
    /// Test and insertion are one step.
    pub fn add_user(&mut self, username: Username, sink: S) -> (r: Result<(), NameConflict>)
        requires
            old(self).wf(),
        ensures
            final(self).wf(),
            r is Err <==> names(old(self)@).contains(username@),
            r is Ok ==> final(self)@ == old(self)@.push((username@, sink)),
            r is Err ==> final(self)@ == old(self)@,
    {
        if self.has_user(&username) {
            return Err(NameConflict);
        }
        let ghost before = self@;
        let ghost name = username@;
        proof {
            use_type_invariant(&username);
            username.lemma_well_formed();
        }
        self.users.push(Member { username, sink });
        proof {
            let after = self@;
            assert(after == before.push((name, sink)));
            assert forall|i: int, j: int|
                0 <= i < after.len() && 0 <= j < after.len() && i != j implies names(after)[i]
                != names(after)[j] by {
                if i < before.len() {
                    assert(names(before)[i] == names(after)[i]);
                }
                if j < before.len() {
                    assert(names(before)[j] == names(after)[j]);
                }
            }
        }
        Ok(())
    }

    /// Takes `username` out of the room and drops its sink. Nothing happens
    /// if nobody goes by that name.
    pub fn remove_user(&mut self, username: &Username)
        requires
            old(self).wf(),
        ensures
            final(self).wf(),
            final(self)@ == audience(old(self)@, Some(username@)),
            !names(final(self)@).contains(username@),
    {
        let ghost before = self@;
        proof {
            lemma_audience_is_everybody_else(before, username@);
        }
        let mut i: usize = 0;
        while i < self.users.len()
            invariant
                i <= self.users.len(),
                self@ == before,
                before == old(self)@,
                well_formed(before),
                forall|j: int| 0 <= j < i ==> names(before)[j] != username@,
            decreases self.users.len() - i,
        {
            if self.users[i].username.same(username) {
                proof {
                    assert(before[i as int].0 == username@);
                    lemma_audience_without_member(before, i as int);
                    lemma_audience_is_well_formed(before, Some(username@));
                }
                let _ = self.users.remove(i);
                assert(self@ == before.remove(i as int));
                return;
            }
            i += 1;
        }
        proof {
            lemma_audience_without_stranger(before, username@);
        }
    }

    /// Addresses `message` to everybody in the room but `exclude`.
    pub fn broadcast<'a>(&'a self, message: String, exclude: Option<&Username>) -> (out: Broadcast<
        'a,
        S,
    >)
        ensures
            out.message == message,
            out.recipients@.unref() == sinks(audience(self@, name_of(exclude))),
    {
        let ghost skip = name_of(exclude);
        let mut recipients: Vec<&'a S> = Vec::new();
        let mut i: usize = 0;
        while i < self.users.len()
            invariant
                i <= self.users.len(),
                skip == name_of(exclude),
                recipients@.unref() == sinks(audience(self@.take(i as int), skip)),
            decreases self.users.len() - i,
        {
            let member = &self.users[i];
            let excluded = match exclude {
                Some(name) => name.same(&member.username),
                None => false,
            };
            proof {
                let seen = self@.take(i as int);
                assert(self@.take(i + 1) == seen.push(self@[i as int]));
                seen.lemma_filter_push(self@[i as int], other_than(skip));
                assert(excluded == !other_than::<S>(skip)(self@[i as int]));
            }
            if !excluded {
                let ghost earlier = recipients@;
                recipients.push(&member.sink);
                proof {
                    let reached = audience(self@.take(i as int), skip);
                    assert(recipients@.unref() =~= earlier.unref().push(member.sink));
                    assert(sinks(reached.push(self@[i as int])) =~= sinks(reached).push(
                        self@[i as int].1,
                    ));
                }
            }
            i += 1;
        }
        assert(self@.take(self.users.len() as int) == self@);
        Broadcast { message, recipients }
    }

    /// Tells everybody in the room that `username` has entered.
    pub fn announce<'a>(&'a self, username: &Username) -> (out: Broadcast<'a, S>)
        ensures
            out.message@ == entered_notice(username@),
            out.recipients@.unref() == sinks(self@),
    {
        proof {
            lemma_audience_of_all(self@);
        }
        self.broadcast(format_entered(username.as_str()), None)
    }
}

} // verus!

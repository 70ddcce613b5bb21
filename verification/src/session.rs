//! One connection's life in the room: greeted, named, talking, gone.
//!
//! A session decides; it does no I/O. Each step hands back what is to be
//! written, and to whom, and whoever owns the sockets writes it.

use crate::chatroom::{
    audience, lemma_audience_of_all, lemma_audience_without_stranger, names, other_than, sinks,
    Broadcast, Chatroom, Members,
};
use crate::username::{
    all_white_space, fault, lemma_bad_length_is_rejected, lemma_fault_free_iff_valid,
    lemma_trim_finds_username, trimmed, valid_username, welcome, InvalidUsername, Username,
    INVALID_SEQUENCE, MAX_USERNAME_LEN, TOO_SHORT_OR_LONG,
};
use crate::wire::{
    chat_message, entered_notice, format_chat, format_entered, format_left, format_roster,
    left_notice, roster_message, ALREADY_TAKEN, WELCOME,
};
use vstd::pervasive::unreached;
use vstd::prelude::*;

verus! {

/// Why a handshake ends a session instead of admitting it.
#[derive(Clone, Copy, Debug, PartialEq, Eq, Structural)]
pub enum HandshakeError {
    /// The candidate is no valid username.
    InvalidUsername(InvalidUsername),
    /// The candidate is fine, but somebody in the room has that name.
    NameConflict,
}

impl HandshakeError {
    /// The line sent to the peer before its connection is dropped.
    pub fn message(&self) -> (text: &'static str)
        ensures
            text@ == match *self {
                HandshakeError::InvalidUsername(InvalidUsername::TooShortOrLong) => TOO_SHORT_OR_LONG@,
                HandshakeError::InvalidUsername(InvalidUsername::InvalidSequence) => INVALID_SEQUENCE@,
                HandshakeError::NameConflict => ALREADY_TAKEN@,
            },
    {
        match self {
            HandshakeError::InvalidUsername(e) => e.message(),
            HandshakeError::NameConflict => ALREADY_TAKEN,
        }
    }
}

/// How a handshake ends for a peer that answers the prompt with `candidate`
/// while `members` are in the room: with the name it is admitted under, or
/// with the reason it is not.
pub open spec fn handshake<S>(members: Members<S>, candidate: Seq<char>) -> Result<
    Seq<char>,
    HandshakeError,
> {
    let name = trimmed(candidate);
    match fault(name) {
        Some(e) => Err(HandshakeError::InvalidUsername(e)),
        None => if names(members).contains(name) {
            Err(HandshakeError::NameConflict)
        } else {
            Ok(name)
        },
    }
}

/// A valid username that nobody in the room has is admitted, whatever white
/// space the peer sent around it.
pub proof fn lemma_valid_unused_name_is_admitted<S>(
    members: Members<S>,
    before: Seq<char>,
    name: Seq<char>,
    after: Seq<char>,
)
    requires
        valid_username(name),
        all_white_space(before),
        all_white_space(after),
        !names(members).contains(name),
    ensures
        handshake(members, before + name + after) == Ok::<Seq<char>, HandshakeError>(name),
        handshake(members, name) == Ok::<Seq<char>, HandshakeError>(name),
{
    lemma_trim_finds_username(before, name, after);
    lemma_fault_free_iff_valid(name);
}

/// A candidate that trims to nothing, or to more than 64 characters, is
/// turned down for its length, whoever is in the room.
pub proof fn lemma_bad_length_is_never_admitted<S>(members: Members<S>, candidate: Seq<char>)
    requires
        trimmed(candidate).len() == 0 || trimmed(candidate).len() > MAX_USERNAME_LEN,
    ensures
        handshake(members, candidate) == Err::<Seq<char>, HandshakeError>(
            HandshakeError::InvalidUsername(InvalidUsername::TooShortOrLong),
        ),
{
    lemma_bad_length_is_rejected(trimmed(candidate));
}

/// Whoever is admitted was not in the room before, so the roster a newcomer
/// is sent does not name the newcomer.
pub proof fn lemma_newcomer_is_new<S>(members: Members<S>, candidate: Seq<char>)
    ensures
        handshake(members, candidate) matches Ok(name) ==> {
            &&& valid_username(name)
            &&& name == trimmed(candidate)
            &&& !names(members).contains(name)
        },
{
    lemma_fault_free_iff_valid(trimmed(candidate));
}

/// A name is given out once: of two peers that ask for the same name, one
/// right after the other, the second meets a conflict, whether the first was
/// admitted or not.
pub proof fn lemma_name_is_given_once<S>(
    members: Members<S>,
    first: Seq<char>,
    sink: S,
    second: Seq<char>,
)
    requires
        trimmed(first) == trimmed(second),
    ensures
        handshake(members, first) matches Ok(name) ==> handshake(
            members.push((name, sink)),
            second,
        ) == Err::<Seq<char>, HandshakeError>(HandshakeError::NameConflict),
        handshake(members, first) matches Err(e) ==> handshake(members, second) == Err::<
            Seq<char>,
            HandshakeError,
        >(e),
{
    if let Ok(name) = handshake(members, first) {
        let grown = members.push((name, sink));
        assert(names(grown)[members.len() as int] == name);
    }
}

/// What admitting a session asks to be written.
pub struct Admission<'a, S> {
    /// For those who were in the room already: the newcomer has entered.
    pub announcement: Broadcast<'a, S>,
    /// For the newcomer alone: who was in the room already.
    pub roster: String,
}

/// Where a connection stands. It only ever moves forward:
/// `Connecting`, `AwaitingUsername`, `Active`, `Disconnected`.
pub enum Session {
    /// Accepted, not greeted yet.
    Connecting,
    /// Greeted; the next line is the candidate username.
    AwaitingUsername,
    /// In the room under `username`.
    Active { username: Username },
    /// Over. Nothing follows.
    Disconnected,
}

impl Session {
    /// How far along a session is. No step ever takes it back.
    pub open spec fn stage(&self) -> nat {
        match self {
            Session::Connecting => 0,
            Session::AwaitingUsername => 1,
            Session::Active { .. } => 2,
            Session::Disconnected => 3,
        }
    }

    /// The name the session is in the room under, while it is.
    pub fn username(&self) -> (username: Option<&Username>)
        ensures
            match username {
                Some(username) => *self matches Session::Active { username: own } && own == username,
                None => !(*self is Active),
            },
    {
        match self {
            Session::Active { username } => Some(username),
            _ => None,
        }
    }

    /// The state of a connection that has just been accepted.
    pub fn new() -> (session: Session)
        ensures
            session is Connecting,
    {
        Session::Connecting
    }

    /// Starts the handshake: hands back the prompt to write to the peer.
    pub fn accept(&mut self) -> (prompt: &'static str)
        requires
            *old(self) is Connecting,
        ensures
            *final(self) is AwaitingUsername,
            old(self).stage() < final(self).stage(),
            prompt@ == WELCOME@,
    {
        *self = Session::AwaitingUsername;
        WELCOME
    }

    /// Ends the handshake on the peer's answer to the prompt.
    ///
    /// A valid name that nobody has is admitted: it is registered with
    /// `sink`, those already in the room are told that it has entered, and
    /// the newcomer is told who they are. Anything else ends the session and
    /// leaves the room alone; the error carries the line owed to the peer.
    /// Checking the name and taking it are one step, so of two peers asking
    /// for one name the second is turned down.
    pub fn join<'a, S>(&mut self, room: &'a mut Chatroom<S>, candidate: &str, sink: S) -> (r:
        Result<Admission<'a, S>, HandshakeError>)
        requires
            *old(self) is AwaitingUsername,
            old(room).wf(),
        ensures
            final(room).wf(),
            old(self).stage() < final(self).stage(),
            match r {
                Ok(admission) => {
                    &&& *final(self) matches Session::Active { username }
                    &&& handshake(old(room)@, candidate@) == Ok::<Seq<char>, HandshakeError>(
                        username@,
                    )
                    &&& final(room)@ == old(room)@.push((username@, sink))
                    &&& names(final(room)@).contains(username@)
                    &&& admission.announcement.message@ == entered_notice(username@)
                    &&& admission.announcement.recipients@.unref() == sinks(old(room)@)
                    &&& admission.roster@ == roster_message(names(old(room)@))
                },
                Err(e) => {
                    &&& *final(self) is Disconnected
                    &&& handshake(old(room)@, candidate@) == Err::<Seq<char>, HandshakeError>(e)
                    &&& final(room)@ == old(room)@
                },
            },
    {
        let ghost before = room@;
        proof {
            lemma_fault_free_iff_valid(trimmed(candidate@));
        }
        let username = match welcome(candidate) {
            Ok(username) => username,
            Err(e) => {
                *self = Session::Disconnected;
                return Err(HandshakeError::InvalidUsername(e));
            },
        };
        let existing = room.existing();
        let roster = format_roster(&existing);
        if room.add_user(username.clone(), sink).is_err() {
            *self = Session::Disconnected;
            return Err(HandshakeError::NameConflict);
        }
        let entered: &'a Chatroom<S> = room;
        proof {
            assert(names(entered@) =~= names(before).push(username@));
            assert(names(entered@)[before.len() as int] == username@);
            assert(audience(entered@, Some(username@)) == before) by {
                lemma_audience_without_stranger(before, username@);
                before.lemma_filter_push((username@, sink), other_than(Some(username@)));
            }
        }
        let announcement = entered.broadcast(format_entered(username.as_str()), Some(&username));
        *self = Session::Active { username };
        Ok(Admission { announcement, roster })
    }

    /// Passes on a line the peer has sent: to everybody in the room but the
    /// peer itself, under its name.
    pub fn say<'a, S>(&self, room: &'a Chatroom<S>, line: &str) -> (out: Broadcast<'a, S>)
        requires
            self is Active,
        ensures
            out.message@ == chat_message(self->username@, line@),
            out.recipients@.unref() == sinks(audience(room@, Some(self->username@))),
    {
        match self {
            Session::Active { username } => {
                room.broadcast(format_chat(username.as_str(), line), Some(username))
            },
            _ => unreached(),
        }
    }

    /// Ends an active session: its name leaves the room, and everybody who
    /// remains is told so.
    pub fn leave<'a, S>(&mut self, room: &'a mut Chatroom<S>) -> (out: Broadcast<'a, S>)
        requires
            *old(self) is Active,
            old(room).wf(),
        ensures
            *final(self) is Disconnected,
            old(self).stage() < final(self).stage(),
            final(room).wf(),
            final(room)@ == audience(old(room)@, Some(old(self)->username@)),
            !names(final(room)@).contains(old(self)->username@),
            out.message@ == left_notice(old(self)->username@),
            out.recipients@.unref() == sinks(final(room)@),
    {
        let mut state = Session::Disconnected;
        core::mem::swap(self, &mut state);
        match state {
            Session::Active { username } => {
                room.remove_user(&username);
                let remaining: &'a Chatroom<S> = room;
                proof {
                    lemma_audience_of_all(remaining@);
                }
                remaining.broadcast(format_left(username.as_str()), None)
            },
            _ => unreached(),
        }
    }
}

} // verus!

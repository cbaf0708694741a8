//! An event bus with many posters and one receiver.

use vstd::prelude::*;

verus! {

/// An identifier that is minted once and never again.
#[derive(Clone, Copy, Debug, PartialEq, Eq, Hash, Structural)]
pub struct Uuid(pub usize);

/// Identifiers that come in an order in which each has at most one
/// successor, so that minting one after the other never repeats one.
pub trait UniqueNext: Sized + Copy {
    /// The place of the identifier in the order of minting.
    spec fn rank(&self) -> nat;

    /// Whether an identifier comes after this one.
    spec fn has_next(&self) -> bool;

    /// The identifier before all that are minted.
    fn first() -> (id: Self)
        ensures
            id.rank() == 0,
    ;

    /// Whether an identifier comes after this one.
    fn can_mint(&self) -> (b: bool)
        ensures
            b == self.has_next(),
    ;

    /// The identifier that comes after this one.
    fn next(&self) -> (id: Self)
        requires
            self.has_next(),
        ensures
            id.rank() == self.rank() + 1,
    ;
}

impl UniqueNext for Uuid {
    open spec fn rank(&self) -> nat {
        self.0 as nat
    }

    open spec fn has_next(&self) -> bool {
        self.0 < usize::MAX
    }

    fn first() -> (id: Self) {
        Uuid(0)
    }

    fn can_mint(&self) -> (b: bool) {
        self.0 < usize::MAX
    }

    fn next(&self) -> (id: Self) {
        Uuid(self.0 + 1)
    }
}

/// The queue that `posts` leave behind when they are posted one after the
/// other to a receiver that holds `queue`.
pub open spec fn queue_after<T, U>(queue: Seq<(U, T)>, posts: Seq<(U, T)>) -> Seq<(U, T)>
    decreases posts.len(),
{
    if posts.len() == 0 {
        queue
    } else {
        queue_after(queue, posts.drop_last()).push(posts.last())
    }
}

/// First in, first out: whatever is posted to an empty receiver, by
/// whichever posters in whichever interleaving, stands in its queue in the
/// order of posting, which is what a poll hands out.
pub proof fn lemma_fifo<T, U>(posts: Seq<(U, T)>)
    ensures
        queue_after(Seq::<(U, T)>::empty(), posts) == posts,
    decreases posts.len(),
{
    if posts.len() > 0 {
        lemma_fifo(posts.drop_last());
        assert(posts.drop_last().push(posts.last()) =~= posts);
    }
}

/// The mint of identifiers: the one counter that every identifier comes
/// from, so that none is handed out twice.
pub struct Mint<U: UniqueNext> {
    newest: U,
}

impl<U: UniqueNext> Mint<U> {
    /// The identifier that was minted last: none before it was minted later.
    pub closed spec fn newest(&self) -> U {
        self.newest
    }

    /// Whether `later` is this mint at a later time: it has minted what
    /// this one has, and maybe more.
    pub open spec fn before(&self, later: Mint<U>) -> bool {
        self.newest().rank() <= later.newest().rank()
    }

    /// A mint that has minted nothing.
    pub fn new() -> (mint: Self)
        ensures
            mint.newest().rank() == 0,
    {
        Self { newest: U::first() }
    }

    /// Whether another identifier can be minted.
    pub fn can_mint(&self) -> (b: bool)
        ensures
            b == self.newest().has_next(),
    {
        self.newest.can_mint()
    }

    /// The identifier that was minted last.
    pub fn peek(&self) -> (id: U)
        ensures
            id == self.newest(),
    {
        self.newest
    }

    /// A new identifier: it comes behind every identifier that the mint
    /// has handed out, and so differs from each of them.
    pub fn mint(&mut self) -> (id: U)
        requires
            old(self).newest().has_next(),
        ensures
            id.rank() == old(self).newest().rank() + 1,
            final(self).newest() == id,
    {
        let id = self.newest.next();
        self.newest = id;
        id
    }
}

/// Whatever a mint hands out after it handed out `earlier`, it hands out
/// another identifier: identifiers are never used again.
pub proof fn lemma_minted_once<U: UniqueNext>(earlier: U, before: Mint<U>, later: U)
    requires
        earlier.rank() <= before.newest().rank(),
        later.rank() > before.newest().rank(),
    ensures
        later != earlier,
{
}

/// The sole receiver of what any number of posters post.
pub struct EventReceiver<T, U: UniqueNext> {
    /// What was posted and not yet polled, oldest first.
    pub received: Vec<(U, T)>,
    /// The newest identifier that a poster of this receiver was given.
    pub newest: U,
}

impl<T, U: UniqueNext> EventReceiver<T, U> {
    /// What was posted and not yet polled, oldest first.
    pub open spec fn queue(&self) -> Seq<(U, T)> {
        self.received@
    }

    /// The newest identifier that a poster of this receiver was given.
    pub open spec fn newest(&self) -> U {
        self.newest
    }

    /// Whether `mint` can give a poster of this receiver an identifier:
    /// it has one left, and is not behind what the posters of this
    /// receiver have, as the mint that they came from never is.
    pub open spec fn can_take(&self, mint: Mint<U>) -> bool {
        mint.newest().has_next() && self.newest().rank() <= mint.newest().rank()
    }

    /// A receiver with nothing in its queue.
    pub fn new() -> (receiver: Self)
        ensures
            receiver.queue() == Seq::<(U, T)>::empty(),
            receiver.newest().rank() == 0,
    {
        Self { received: Vec::new(), newest: U::first() }
    }

    /// Hand out what was posted, oldest first, and empty the queue.
    pub fn poll(&mut self) -> (polled: Vec<(U, T)>)
        ensures
            polled@ == old(self).queue(),
            final(self).queue() == Seq::<(U, T)>::empty(),
            final(self).newest() == old(self).newest(),
    {
        let mut polled: Vec<(U, T)> = Vec::new();
        polled.append(&mut self.received);
        assert(polled@ =~= old(self).queue());
        polled
    }

    /// Put `event` at the end of the queue.
    pub fn receive(&mut self, event: (U, T))
        ensures
            final(self).queue() == old(self).queue().push(event),
            final(self).newest() == old(self).newest(),
    {
        self.received.push(event);
    }

    /// A new poster, with an identifier fresh from `mint`: one that no
    /// poster has had that the mint gave an identifier.
    pub fn new_poster(&mut self, mint: &mut Mint<U>) -> (poster: EventPoster<T, U>)
        requires
            old(mint).newest().has_next(),
        ensures
            poster.id().rank() == old(mint).newest().rank() + 1,
            final(mint).newest() == poster.id(),
            final(self).newest() == poster.id(),
            final(self).queue() == old(self).queue(),
    {
        EventPoster::new(self, mint)
    }
}

/// A handle to post with, under an identifier of its own.
pub struct EventPoster<T, U: UniqueNext> {
    uuid: U,
    payload: core::marker::PhantomData<T>,
}

impl<T, U: UniqueNext> EventPoster<T, U> {
    /// The identifier of the poster.
    pub closed spec fn id(&self) -> U {
        self.uuid
    }

    /// A poster for `receiver`, with an identifier fresh from `mint`.
    pub fn new(receiver: &mut EventReceiver<T, U>, mint: &mut Mint<U>) -> (poster: Self)
        requires
            old(mint).newest().has_next(),
        ensures
            poster.id().rank() == old(mint).newest().rank() + 1,
            final(mint).newest() == poster.id(),
            final(receiver).newest() == poster.id(),
            final(receiver).queue() == old(receiver).queue(),
    {
        let uuid = mint.mint();
        receiver.newest = uuid;
        Self { uuid, payload: core::marker::PhantomData }
    }

    /// Post `event` to `receiver` under the poster's identifier.
    pub fn post(&self, receiver: &mut EventReceiver<T, U>, event: T)
        ensures
            final(receiver).queue() == old(receiver).queue().push((self.id(), event)),
            final(receiver).newest() == old(receiver).newest(),
    {
        receiver.receive((self.uuid, event));
    }

    /// Post `event` to `receiver` under the identifier `uuid`.
    pub fn post_lie(&self, receiver: &mut EventReceiver<T, U>, event: T, uuid: U)
        ensures
            final(receiver).queue() == old(receiver).queue().push((uuid, event)),
            final(receiver).newest() == old(receiver).newest(),
    {
        receiver.receive((uuid, event));
    }

    /// The identifier of the poster.
    pub fn get_uuid(&self) -> (uuid: &U)
        ensures
            *uuid == self.id(),
    {
        &self.uuid
    }
}

impl<T, U: UniqueNext> Clone for EventPoster<T, U> {
    fn clone(&self) -> (poster: Self)
        ensures
            poster.id() == self.id(),
    {
        Self { uuid: self.uuid, payload: core::marker::PhantomData }
    }
}

} // verus!

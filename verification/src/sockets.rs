//! The sockets of a server, each under the token that its events come with.
use vstd::prelude::*;

use crate::socket::Socket;

verus! {

/// The table of the `slab` crate, which gives out the keys of its slots.
#[verifier::external_type_specification]
#[verifier::external_body]
#[verifier::reject_recursive_types(T)]
pub struct ExSlab<T>(slab::Slab<T>);

/// Sockets by token.
pub type SocketMap = Map<usize, Socket>;

/// What a slab holds, by key.
pub uninterp spec fn slab_contents(slab: slab::Slab<Socket>) -> Map<usize, Socket>;

/// The key that a slab gives out next.
pub uninterp spec fn slab_next(slab: slab::Slab<Socket>) -> usize;

/// `slab::Slab::with_capacity`: the new slab holds nothing.
#[verifier::external_body]
fn new_slab(capacity: usize) -> (slab: slab::Slab<Socket>)
    ensures
        slab_contents(slab) == SocketMap::empty(),
{
    slab::Slab::with_capacity(capacity)
}

/// `slab::Slab::vacant_key`: the key that is given out next, under which nothing is held.
#[verifier::external_body]
fn vacant_key(slab: &slab::Slab<Socket>) -> (key: usize)
    ensures
        key == slab_next(*slab),
        !slab_contents(*slab).contains_key(key),
{
    slab.vacant_key()
}

/// `slab::Slab::insert`: the socket is held under the key that was next, which was free.
#[verifier::external_body]
fn slab_insert(slab: &mut slab::Slab<Socket>, socket: Socket) -> (key: usize)
    ensures
        key == slab_next(*old(slab)),
        !slab_contents(*old(slab)).contains_key(key),
        slab_contents(*final(slab)) == slab_contents(*old(slab)).insert(key, socket),
{
    slab.insert(socket)
}

/// `slab::Slab::contains`: whether something is held under the key.
#[verifier::external_body]
fn slab_contains(slab: &slab::Slab<Socket>, key: usize) -> (r: bool)
    ensures
        r == slab_contents(*slab).contains_key(key),
{
    slab.contains(key)
}

/// `slab::Slab::remove`: what is held under the key comes out, and the key is the next to be given
/// out.
#[verifier::external_body]
fn slab_remove(slab: &mut slab::Slab<Socket>, key: usize) -> (socket: Socket)
    requires
        slab_contents(*old(slab)).contains_key(key),
    ensures
        socket == slab_contents(*old(slab))[key],
        slab_contents(*final(slab)) == slab_contents(*old(slab)).remove(key),
        slab_next(*final(slab)) == key,
{
    slab.remove(key)
}

/// A socket whose state is sound.
pub open spec fn is_sound(socket: Socket) -> bool {
    socket matches Socket::Stream(stream) ==> stream.wf()
}

/// The sockets of a server.
pub struct Sockets {
    slab: slab::Slab<Socket>,
}

impl View for Sockets {
    type V = Map<usize, Socket>;

    closed spec fn view(&self) -> Map<usize, Socket> {
        slab_contents(self.slab)
    }
}

impl Sockets {
    /// The token that the next socket gets.
    pub closed spec fn next(&self) -> usize {
        slab_next(self.slab)
    }

    /// All the sockets are sound.
    pub open spec fn wf(&self) -> bool {
        forall|token: usize| #[trigger] self@.contains_key(token) ==> is_sound(self@[token])
    }

    /// No sockets.
    pub fn new() -> (r: Self)
        ensures
            r.wf(),
            r@ == SocketMap::empty(),
    {
        Sockets { slab: new_slab(1024) }
    }

    /// The token that the next socket gets, to register it with; no socket has it now.
    pub fn next_token(&self) -> (r: usize)
        ensures
            r == self.next(),
            !self@.contains_key(r),
    {
        vacant_key(&self.slab)
    }

    /// Takes a socket in and gives it its token.
    pub fn add(&mut self, socket: Socket) -> (r: usize)
        requires
            old(self).wf(),
            is_sound(socket),
        ensures
            final(self).wf(),
            r == old(self).next(),
            !old(self)@.contains_key(r),
            final(self)@ == old(self)@.insert(r, socket),
    {
        let token = slab_insert(&mut self.slab, socket);
        proof {
            assert forall|t: usize| #[trigger] self@.contains_key(t) implies is_sound(self@[t]) by {
                if t != token {
                    assert(old(self)@.contains_key(t));
                }
            }
        }
        token
    }

    /// Whether a socket has this token.
    pub fn contains(&self, token: usize) -> (r: bool)
        ensures
            r == self@.contains_key(token),
    {
        slab_contains(&self.slab, token)
    }

    /// Takes out the socket that has this token.
    pub fn take(&mut self, token: usize) -> (r: Socket)
        requires
            old(self).wf(),
            old(self)@.contains_key(token),
        ensures
            final(self).wf(),
            r == old(self)@[token],
            is_sound(r),
            final(self)@ == old(self)@.remove(token),
            final(self).next() == token,
    {
        let socket = slab_remove(&mut self.slab, token);
        proof {
            assert forall|t: usize| #[trigger] self@.contains_key(t) implies is_sound(self@[t]) by {
                assert(old(self)@.contains_key(t));
            }
        }
        socket
    }
}

} // verus!

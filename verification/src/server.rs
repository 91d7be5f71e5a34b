//! The connection registry: a bag of recyclable connection tokens and the
//! live sessions keyed by token.
//!
//! Admission control fails closed at two points checked before any token
//! leaves the bag: an empty bag and the configured connection ceiling. The
//! conservation invariant — live sessions plus pooled tokens always equal
//! the configured capacity, with no token in both — bounds the tokens in
//! use by the capacity for every accept/remove sequence.

use vstd::prelude::*;

use crate::assoc::{al_map, al_unique, lemma_al_map_dom, lemma_al_map_index};
use crate::gametypes::{ClientState, GlobalKey, Token};

verus! {

/// Hard ceiling on concurrently connected sockets.
pub const MAX_SOCKET_PLAYERS: usize = 1000;

/// The token value reserved for the plaintext listening socket.
pub const SERVER_TOKEN_ID: usize = 0;

/// The token value reserved for the encrypted listening socket.
pub const TLS_SERVER_TOKEN_ID: usize = 1;

/// Per-session state the core tracks for a live connection.
#[derive(Clone, Debug)]
pub struct ClientInfo {
    pub addr: String,
    pub is_tls: bool,
    pub entity: Option<GlobalKey>,
    pub state: ClientState,
}

/// What the registry decides for one pending connection.
#[derive(Clone, Copy, Debug, PartialEq, Eq, Structural)]
pub enum AcceptDecision {
    /// Admit under this token; the caller registers the socket.
    Admitted(Token),
    /// Connection ceiling would be reached: close cleanly, consume nothing.
    ServerFull,
    /// Token bag empty: close cleanly, consume nothing.
    NoTokens,
}

/// No token occurs twice.
pub open spec fn tokens_unique(s: Seq<Token>) -> bool {
    forall|i: int, j: int| 0 <= i < j < s.len() ==> s[i] != s[j]
}

/// The connection registry.
#[derive(Debug)]
pub struct Server {
    pub clients: Vec<(Token, ClientInfo)>,
    pub tokens: Vec<Token>,
    pub capacity: usize,
}

impl Server {
    /// The live sessions as a map.
    pub open spec fn clients_map(self) -> Map<Token, ClientInfo> {
        al_map(self.clients@)
    }

    /// Conservation invariant: sessions and pooled tokens partition the
    /// capacity, and the reserved listener tokens never circulate.
    pub open spec fn wf(self) -> bool {
        &&& al_unique(self.clients@)
        &&& tokens_unique(self.tokens@)
        &&& forall|i: int, j: int|
            0 <= i < self.tokens@.len() && 0 <= j < self.clients@.len() ==> self.tokens@[i]
                != self.clients@[j].0
        &&& self.clients@.len() + self.tokens@.len() == self.capacity
        &&& forall|i: int| 0 <= i < self.tokens@.len() ==> (#[trigger] self.tokens@[i]).0 >= 2
        &&& forall|j: int| 0 <= j < self.clients@.len() ==> (#[trigger] self.clients@[j].0).0 >= 2
    }

    /// A fresh registry with the token bag `2 .. max`.
    pub fn new(max: usize) -> (r: Server)
        requires
            max >= 2,
        ensures
            r.wf(),
            r.clients@.len() == 0,
            r.tokens@.len() == max - 2,
            r.capacity == max - 2,
            forall|j: int| 0 <= j < r.tokens@.len() ==> r.tokens@[j] == (Token((j + 2) as usize)),
    {
        let mut tokens: Vec<Token> = Vec::new();
        let mut i: usize = 2;
        while i < max
            invariant
                2 <= i <= max,
                tokens@.len() == i - 2,
                forall|j: int| 0 <= j < tokens@.len() ==> tokens@[j] == (Token((j + 2) as usize)),
            decreases max - i,
        {
            tokens.push(Token(i));
            i += 1;
        }
        Server { clients: Vec::new(), tokens, capacity: max - 2 }
    }

    /// The index of the session under `token`, if one is live.
    pub fn find_client_index(&self, token: Token) -> (r: Option<usize>)
        ensures
            match r {
                Some(i) => i < self.clients@.len() && self.clients@[i as int].0 == token,
                None => !self.clients_map().dom().contains(token),
            },
    {
        let mut i: usize = 0;
        while i < self.clients.len()
            invariant
                i <= self.clients@.len(),
                forall|j: int| 0 <= j < i ==> self.clients@[j].0 != token,
            decreases self.clients@.len() - i,
        {
            if self.clients[i].0 == token {
                return Some(i);
            }
            i += 1;
        }
        proof {
            lemma_al_map_dom(self.clients@, token);
        }
        None
    }

    /// Decides one pending connection. Capacity is checked before any token
    /// is consumed; a rejection changes nothing.
    pub fn accept(&mut self, is_tls: bool, addr: String) -> (r: AcceptDecision)
        requires
            old(self).wf(),
        ensures
            final(self).wf(),
            final(self).capacity == old(self).capacity,
            r == AcceptDecision::NoTokens <==> old(self).tokens@.len() == 0,
            r == AcceptDecision::ServerFull <==> (old(self).tokens@.len() > 0 && old(
                self,
            ).clients@.len() + 1 >= MAX_SOCKET_PLAYERS),
            (r == AcceptDecision::NoTokens || r == AcceptDecision::ServerFull) ==> *final(self)
                == *old(self),
            forall|t: Token|
                r == AcceptDecision::Admitted(t) ==> {
                    &&& t == old(self).tokens@[0]
                    &&& !old(self).clients_map().dom().contains(t)
                    &&& final(self).tokens@ == old(self).tokens@.subrange(
                        1,
                        old(self).tokens@.len() as int,
                    )
                    &&& final(self).clients@ == old(self).clients@.push(
                        (
                            t,
                            ClientInfo {
                                addr,
                                is_tls,
                                entity: Option::<GlobalKey>::None,
                                state: ClientState::Open,
                            },
                        ),
                    )
                    &&& final(self).clients_map() == old(self).clients_map().insert(
                        t,
                        ClientInfo {
                            addr,
                            is_tls,
                            entity: Option::<GlobalKey>::None,
                            state: ClientState::Open,
                        },
                    )
                },
            r is Admitted <==> (old(self).tokens@.len() > 0 && old(self).clients@.len() + 1
                < MAX_SOCKET_PLAYERS),
    {
        if self.tokens.len() == 0 {
            return AcceptDecision::NoTokens;
        }
        if self.clients.len() + 1 >= MAX_SOCKET_PLAYERS {
            return AcceptDecision::ServerFull;
        }
        let token = self.tokens.remove(0);
        let info = ClientInfo { addr, is_tls, entity: None, state: ClientState::Open };
        proof {
            lemma_al_map_dom(self.clients@, token);
            crate::assoc::lemma_al_map_push(self.clients@, token, info);
            old(self).tokens@.remove_ensures(0);
            assert(old(self).tokens@.remove(0) =~= old(self).tokens@.subrange(
                1,
                old(self).tokens@.len() as int,
            ));
        }
        self.clients.push((token, info));
        proof {
            let t = self.clients@;
            assert forall|p: int, q: int| 0 <= p < q < t.len() implies t[p].0 != t[q].0 by {
                if q == t.len() - 1 {
                    assert(t[p] == old(self).clients@[p]);
                }
            }
        }
        AcceptDecision::Admitted(token)
    }

    /// Evicts the session under `token`, if live, and returns the token to
    /// the front of the bag; an unknown token changes nothing.
    pub fn remove(&mut self, token: Token)
        requires
            old(self).wf(),
        ensures
            final(self).wf(),
            final(self).capacity == old(self).capacity,
            old(self).clients_map().dom().contains(token) ==> {
                &&& final(self).clients_map() == old(self).clients_map().remove(token)
                &&& final(self).clients@.len() == old(self).clients@.len() - 1
                &&& final(self).tokens@ == seq![token] + old(self).tokens@
            },
            !old(self).clients_map().dom().contains(token) ==> *final(self) == *old(self),
    {
        match self.find_client_index(token) {
            Some(i) => {
                proof {
                    crate::assoc::lemma_al_map_remove(self.clients@, i as int);
                    self.clients@.remove_ensures(i as int);
                }
                self.clients.remove(i);
                proof {
                    lemma_al_map_index(old(self).clients@, i as int);
                    old(self).tokens@.insert_ensures(0, token);
                }
                self.tokens.insert(0, token);
                proof {
                    assert(self.tokens@ =~= seq![token] + old(self).tokens@);
                    let ts = self.tokens@;
                    assert forall|p: int, q: int| 0 <= p < q < ts.len() implies ts[p] != ts[q] by {
                        if p == 0 {
                            assert(ts[q] == old(self).tokens@[q - 1]);
                        } else {
                            assert(ts[p] == old(self).tokens@[p - 1]);
                            assert(ts[q] == old(self).tokens@[q - 1]);
                        }
                    }
                }
            },
            None => {},
        }
    }

    /// Applies the outcome of one session's processing step: a session seen
    /// closed — or a token with no live session — is evicted and recycled;
    /// anything else stands.
    pub fn finish_client_event(&mut self, token: Token, observed: Option<ClientState>)
        requires
            old(self).wf(),
        ensures
            final(self).wf(),
            final(self).capacity == old(self).capacity,
            (observed is None || observed == Some(ClientState::Closed)) ==> (old(
                self,
            ).clients_map().dom().contains(token) ==> final(self).clients_map() == old(
                self,
            ).clients_map().remove(token)),
            (observed is None || observed == Some(ClientState::Closed)) ==> (!old(
                self,
            ).clients_map().dom().contains(token) ==> *final(self) == *old(self)),
            !(observed is None || observed == Some(ClientState::Closed)) ==> *final(self) == *old(
                self,
            ),
    {
        let close = match observed {
            None => true,
            Some(st) => st == ClientState::Closed,
        };
        if close {
            self.remove(token);
        }
    }

    /// Links the session under `token` to a player entity; an unknown token
    /// changes nothing.
    pub fn link_client_entity(&mut self, token: Token, entity: GlobalKey)
        requires
            old(self).wf(),
        ensures
            final(self).wf(),
            final(self).capacity == old(self).capacity,
            final(self).tokens == old(self).tokens,
            old(self).clients_map().dom().contains(token) ==> final(self).clients_map() == old(
                self,
            ).clients_map().insert(
                token,
                (ClientInfo {
                    entity: Some(entity),
                    ..old(self).clients_map()[token]
                }),
            ),
            !old(self).clients_map().dom().contains(token) ==> *final(self) == *old(self),
    {
        match self.find_client_index(token) {
            Some(i) => {
                proof {
                    lemma_al_map_index(self.clients@, i as int);
                    self.clients@.remove_ensures(i as int);
                }
                let (k, info) = self.clients.remove(i);
                let updated = ClientInfo { entity: Some(entity), ..info };
                proof {
                    crate::assoc::lemma_al_map_reinsert(old(self).clients@, i as int, updated);
                }
                self.clients.push((k, updated));
                proof {
                    let t = self.clients@;
                    assert forall|p: int, q: int|
                        0 <= p < self.tokens@.len() && 0 <= q < t.len() implies self.tokens@[p]
                        != t[q].0 by {
                        if q == t.len() - 1 {
                            assert(t[q].0 == old(self).clients@[i as int].0);
                        } else if q < i {
                            assert(t[q] == old(self).clients@[q]);
                        } else {
                            assert(t[q] == old(self).clients@[q + 1]);
                        }
                    }
                    assert forall|q: int| 0 <= q < t.len() implies (#[trigger] t[q].0).0 >= 2 by {
                        if q == t.len() - 1 {
                            assert(t[q].0 == old(self).clients@[i as int].0);
                        } else if q < i {
                            assert(t[q] == old(self).clients@[q]);
                        } else {
                            assert(t[q] == old(self).clients@[q + 1]);
                        }
                    }
                }
            },
            None => {},
        }
    }
}

/// Tokens in use never exceed the configured capacity: direct reading of
/// the conservation invariant.
pub proof fn lemma_token_pool_bound(s: Server)
    requires
        s.wf(),
    ensures
        s.clients@.len() <= s.capacity,
{
}

} // verus!

use vstd::prelude::*;

use crate::keyed::KeyedVec;
use vstd::string::{StrSliceExecFns, StringExecFns};

verus! {

/// Identifier of a connected player (the network client id).
pub type PlayerId = u64;

/// Decimal digits of a natural number, most significant first.
pub open spec fn spec_decimal(n: nat) -> Seq<char>
    decreases n,
{
    if n < 10 {
        seq![(48 + n) as char]
    } else {
        spec_decimal(n / 10).push((48 + n % 10) as char)
    }
}

/// Display name given to a player who has not chosen one.
pub open spec fn spec_default_name(id: PlayerId) -> Seq<char> {
    "Player-"@ + spec_decimal(id as nat)
}

/// Appends the decimal digits of `n`, most significant first.
fn append_decimal(s: &mut String, n: u64)
    ensures
        final(s)@ == old(s)@ + spec_decimal(n as nat),
    decreases n,
{
    if n >= 10 {
        append_decimal(s, n / 10);
    }
    let d = (n % 10) as usize;
    let digits = "0123456789";
    proof {
        reveal_strlit("0123456789");
    }
    let digit = digits.substring_char(d, d + 1);
    assert(digit@ =~= seq![(48 + n % 10) as char]);
    s.append(digit);
    assert(s@ =~= old(s)@ + spec_decimal(n as nat));
}

/// The default display name `Player-<id>`.
fn default_name(id: PlayerId) -> (r: String)
    ensures
        r@ == spec_default_name(id),
{
    let mut name = "Player-".to_owned();
    append_decimal(&mut name, id);
    name
}

/// Server-side record of a connected player.
#[derive(Debug, Clone)]
pub struct ServerPlayer {
    pub id: PlayerId,
    pub name: String,
    /// Client timestamp of the last input applied; older inputs are stale.
    pub last_input_processed: u64,
    pub is_authenticated: bool,
}

impl ServerPlayer {
    /// A fresh, unauthenticated player with the default name.
    pub fn new(id: PlayerId) -> (r: ServerPlayer)
        ensures
            r.id == id,
            r.name@ == spec_default_name(id),
            r.last_input_processed == 0,
            !r.is_authenticated,
    {
        ServerPlayer { id, name: default_name(id), last_input_processed: 0, is_authenticated: false }
    }
}

/// What the server does with one input frame received from a client.
#[derive(PartialEq, Eq, Structural, Debug, Clone, Copy)]
pub enum InputVerdict {
    /// No player with this id is registered.
    UnknownPlayer,
    /// The player has not authenticated yet.
    Unauthenticated,
    /// The player has no character in the world.
    NoEntity,
    /// The input is not newer than the last one applied.
    Stale,
    /// The input is applied and becomes the last one processed.
    Applied,
}

/// Players known to the server, by id.
pub struct PlayerRegistry {
    pub players: KeyedVec<PlayerId, ServerPlayer>,
}

pub open spec fn spec_verdict(players: Map<PlayerId, ServerPlayer>, id: PlayerId, time_ms: u64, has_entity: bool) -> InputVerdict {
    if !players.contains_key(id) {
        InputVerdict::UnknownPlayer
    } else if !players[id].is_authenticated {
        InputVerdict::Unauthenticated
    } else if !has_entity {
        InputVerdict::NoEntity
    } else if time_ms <= players[id].last_input_processed {
        InputVerdict::Stale
    } else {
        InputVerdict::Applied
    }
}

impl PlayerRegistry {
    pub open spec fn view(&self) -> Map<PlayerId, ServerPlayer> {
        self.players@
    }

    pub open spec fn wf(&self) -> bool {
        self.players.wf()
    }

    /// Registers a fresh player for `client_id`, replacing any previous record.
    pub fn add_player(&mut self, client_id: PlayerId)
        requires
            old(self).wf(),
        ensures
            final(self).wf(),
            final(self)@.dom() == old(self)@.dom().insert(client_id),
            forall|id: PlayerId| id != client_id && old(self)@.contains_key(id)
                ==> #[trigger] final(self)@[id] == old(self)@[id],
            final(self)@[client_id].id == client_id,
            final(self)@[client_id].name@ == spec_default_name(client_id),
            final(self)@[client_id].last_input_processed == 0,
            !final(self)@[client_id].is_authenticated,
    {
        let player = ServerPlayer::new(client_id);
        self.players.insert(client_id, player);
    }

    /// Forgets the player of `client_id`.
    pub fn remove_player(&mut self, client_id: PlayerId)
        requires
            old(self).wf(),
        ensures
            final(self).wf(),
            final(self)@ == old(self)@.remove(client_id),
    {
        let _ = self.players.remove(&client_id);
    }

    /// Mutable access to the record of `client_id`.
    pub fn get_player_mut(&mut self, client_id: PlayerId) -> (r: Option<&mut ServerPlayer>)
        requires
            old(self).wf(),
        ensures
            final(self).wf(),
            match r {
                Some(p) => old(self)@.contains_key(client_id) && *p == old(self)@[client_id]
                    && final(self)@ == old(self)@.insert(client_id, *final(p)),
                None => !old(self)@.contains_key(client_id) && *final(self) == *old(self),
            },
    {
        self.players.get_mut(&client_id)
    }

    /// The record of `client_id`.
    pub fn get_player(&self, client_id: PlayerId) -> (r: Option<&ServerPlayer>)
        requires
            self.wf(),
        ensures
            match r {
                Some(p) => self@.contains_key(client_id) && *p == self@[client_id],
                None => !self@.contains_key(client_id),
            },
    {
        self.players.get(&client_id)
    }

    /// Whether `client_id` is registered and authenticated.
    pub fn is_authenticated(&self, client_id: PlayerId) -> (r: bool)
        requires
            self.wf(),
        ensures
            r == (self@.contains_key(client_id) && self@[client_id].is_authenticated),
    {
        match self.players.get(&client_id) {
            Some(p) => p.is_authenticated,
            None => false,
        }
    }

    /// Decides what to do with an input frame stamped `time_ms` from
    /// `client_id` (whose character exists when `has_entity`); an applied
    /// input becomes the player's last processed input.
    pub fn accept_input(&mut self, client_id: PlayerId, time_ms: u64, has_entity: bool) -> (r: InputVerdict)
        requires
            old(self).wf(),
        ensures
            final(self).wf(),
            r == spec_verdict(old(self)@, client_id, time_ms, has_entity),
            r == InputVerdict::Applied ==> final(self)@ == old(self)@.insert(
                client_id,
                ServerPlayer { last_input_processed: time_ms, ..old(self)@[client_id] },
            ),
            r != InputVerdict::Applied ==> final(self)@ == old(self)@,
    {
        match self.players.get_mut(&client_id) {
            None => InputVerdict::UnknownPlayer,
            Some(player) => {
                if !player.is_authenticated {
                    InputVerdict::Unauthenticated
                } else if !has_entity {
                    InputVerdict::NoEntity
                } else if time_ms <= player.last_input_processed {
                    InputVerdict::Stale
                } else {
                    player.last_input_processed = time_ms;
                    InputVerdict::Applied
                }
            },
        }
    }

    /// Ids of the authenticated players, in registration order.
    pub fn authenticated_players(&self) -> (r: Vec<PlayerId>)
        requires
            self.wf(),
        ensures
            r@.no_duplicates(),
            forall|id: PlayerId| r@.contains(id) <==> (self@.contains_key(id) && self@[id].is_authenticated),
    {
        let mut out: Vec<PlayerId> = Vec::new();
        let n = self.players.len();
        let mut i: usize = 0;
        while i < n
            invariant
                n == self.players.entries().len(),
                i <= n,
                self.wf(),
                out@.no_duplicates(),
                forall|id: PlayerId| out@.contains(id) <==> exists|j: int| 0 <= j < i
                    && #[trigger] self.players.entries()[j].0 == id && self.players.entries()[j].1.is_authenticated,
            decreases n - i,
        {
            let e = self.players.entry_at(i);
            let ghost old_out = out@;
            if e.1.is_authenticated {
                proof {
                    assert(!out@.contains(e.0)) by {
                        if out@.contains(e.0) {
                            let j = choose|j: int| 0 <= j < i && self.players.entries()[j].0 == e.0
                                && self.players.entries()[j].1.is_authenticated;
                            assert(self.players.entries()[j].0 != self.players.entries()[i as int].0);
                        }
                    }
                }
                out.push(e.0);
            }
            proof {
                assert forall|id: PlayerId| out@.contains(id) <==> exists|j: int| 0 <= j < i + 1
                    && #[trigger] self.players.entries()[j].0 == id && self.players.entries()[j].1.is_authenticated by {
                    if out@.contains(id) {
                        let k = choose|k: int| 0 <= k < out@.len() && out@[k] == id;
                        if k < old_out.len() {
                            assert(old_out[k] == id);
                            assert(old_out.contains(id));
                            let j = choose|j: int| 0 <= j < i && #[trigger] self.players.entries()[j].0 == id
                                && self.players.entries()[j].1.is_authenticated;
                            assert(0 <= j < i + 1);
                        } else {
                            assert(id == e.0);
                            assert(self.players.entries()[i as int].0 == id);
                        }
                    }
                    if exists|j: int| 0 <= j < i + 1 && #[trigger] self.players.entries()[j].0 == id
                        && self.players.entries()[j].1.is_authenticated {
                        let j = choose|j: int| 0 <= j < i + 1 && #[trigger] self.players.entries()[j].0 == id
                            && self.players.entries()[j].1.is_authenticated;
                        if j == i {
                            assert(out@[out@.len() - 1] == id);
                        } else {
                            assert(old_out.contains(id));
                            let k = choose|k: int| 0 <= k < old_out.len() && old_out[k] == id;
                            assert(out@[k] == id);
                        }
                    }
                }
            }
            i = i + 1;
        }
        proof {
            assert forall|id: PlayerId| out@.contains(id) <==> (self@.contains_key(id) && self@[id].is_authenticated) by {
                crate::keyed::lemma_assoc_map_contains(self.players.entries(), id);
                if self@.contains_key(id) {
                    let j = choose|j: int| 0 <= j < n && self.players.entries()[j].0 == id;
                    crate::keyed::lemma_assoc_map_index(self.players.entries(), j);
                }
                if out@.contains(id) {
                    let j = choose|j: int| 0 <= j < n && #[trigger] self.players.entries()[j].0 == id
                        && self.players.entries()[j].1.is_authenticated;
                    crate::keyed::lemma_assoc_map_index(self.players.entries(), j);
                }
            }
        }
        out
    }
}

/// Once an input stamped `t1` is applied, every later input stamped at or
/// before `t1` is stale and every input stamped after it is applied: inputs
/// take effect in strictly increasing timestamp order.
pub proof fn lemma_applied_input_orders_later_inputs(players: Map<PlayerId, ServerPlayer>, id: PlayerId, t1: u64, t2: u64)
    requires
        spec_verdict(players, id, t1, true) == InputVerdict::Applied,
    ensures
        ({
            let after = players.insert(id, ServerPlayer { last_input_processed: t1, ..players[id] });
            &&& t2 <= t1 ==> spec_verdict(after, id, t2, true) == InputVerdict::Stale
            &&& t2 > t1 ==> spec_verdict(after, id, t2, true) == InputVerdict::Applied
        }),
{
}

/// Input from a player who is unknown, unauthenticated or without a
/// character is never applied, whatever its timestamp.
pub proof fn lemma_unauthorized_input_never_applied(players: Map<PlayerId, ServerPlayer>, id: PlayerId, t: u64, has_entity: bool)
    requires
        !players.contains_key(id) || !players[id].is_authenticated || !has_entity,
    ensures
        spec_verdict(players, id, t, has_entity) != InputVerdict::Applied,
{
}

impl Default for PlayerRegistry {
    /// An empty registry.
    fn default() -> (r: PlayerRegistry)
        ensures
            r.wf(),
            r@ == Map::<PlayerId, ServerPlayer>::empty(),
    {
        PlayerRegistry { players: KeyedVec::new() }
    }
}

} // verus!

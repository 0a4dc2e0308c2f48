//! The path provider: for a pair of assets, the route that its owner has
//! found best, kept so that nobody has to search for one.

use vstd::prelude::*;
use crate::error::AmmError;
use crate::id::{id_at, id_bytes, lemma_id_round_trip, sort_alkanes, sorted_pair, AlkaneId, ID_BYTES};
use crate::parcel::{AlkaneTransfer, CallResponse, Context};

verus! {

/// The route kept for one pair: the pair in canonical order, and the assets
/// of the route.
pub struct PathEntry {
    pub token_a: AlkaneId,
    pub token_b: AlkaneId,
    pub path: Vec<AlkaneId>,
}

/// The state of a path provider.
pub struct AMMPathProvider {
    /// Whether the provider has been initialized.
    pub initialized: bool,
    /// The token whose holder may set routes.
    pub auth_token: AlkaneId,
    /// The routes that have been set. Should a pair have several entries,
    /// the last one counts.
    pub paths: Vec<PathEntry>,
}

/// The routes as a map from pairs in canonical order.
pub open spec fn path_map(entries: Seq<PathEntry>) -> Map<(AlkaneId, AlkaneId), Seq<AlkaneId>>
    decreases entries.len(),
{
    if entries.len() == 0 {
        Map::empty()
    } else {
        path_map(entries.drop_last()).insert(
            (entries.last().token_a, entries.last().token_b),
            entries.last().path@,
        )
    }
}

/// The byte form of a route: the byte forms of its assets, one after the
/// other.
pub open spec fn path_bytes_of(path: Seq<AlkaneId>) -> Seq<u8>
    decreases path.len(),
{
    if path.len() == 0 {
        Seq::<u8>::empty()
    } else {
        path_bytes_of(path.drop_last()) + id_bytes(path.last())
    }
}

/// The route that bytes hold: one asset for every 32 bytes, in order. Bytes
/// that are left over at the end, fewer than 32, are not looked at.
pub open spec fn path_in(bytes: Seq<u8>) -> Seq<AlkaneId> {
    Seq::new((bytes.len() / 32) as nat, |i: int| id_at(bytes, 32 * i))
}

/// The byte form of a route of `n` assets has `32 * n` bytes.
pub proof fn lemma_path_bytes_len(path: Seq<AlkaneId>)
    ensures
        path_bytes_of(path).len() == 32 * path.len(),
    decreases path.len(),
{
    if path.len() > 0 {
        lemma_path_bytes_len(path.drop_last());
        lemma_id_round_trip(Seq::<u8>::empty(), path.last(), Seq::<u8>::empty());
    }
}

/// The byte form of a route holds the byte form of its `i`th asset at
/// `32 * i`.
pub proof fn lemma_path_bytes_at(path: Seq<AlkaneId>, i: int)
    requires
        0 <= i < path.len(),
    ensures
        path_bytes_of(path).len() == 32 * path.len(),
        id_at(path_bytes_of(path), 32 * i) == path[i],
    decreases path.len(),
{
    lemma_path_bytes_len(path);
    lemma_path_bytes_len(path.drop_last());
    let front = path_bytes_of(path.drop_last());
    if i == path.len() - 1 {
        lemma_id_round_trip(front, path.last(), Seq::<u8>::empty());
        assert(front + id_bytes(path.last()) + Seq::<u8>::empty() =~= path_bytes_of(path));
    } else {
        lemma_path_bytes_at(path.drop_last(), i);
        let all = path_bytes_of(path);
        assert(all.subrange(32 * i, 32 * i + 16) =~= front.subrange(32 * i, 32 * i + 16));
        assert(all.subrange(32 * i + 16, 32 * i + 32) =~= front.subrange(
            32 * i + 16,
            32 * i + 32,
        ));
    }
}

/// Reading back the byte form of a route gives the route.
pub proof fn law_path_round_trip(path: Seq<AlkaneId>)
    ensures
        path_in(path_bytes_of(path)) == path,
{
    lemma_path_bytes_len(path);
    let read = path_in(path_bytes_of(path));
    assert(read.len() == path.len());
    assert forall|i: int| 0 <= i < path.len() implies read[i] == path[i] by {
        lemma_path_bytes_at(path, i);
    }
    assert(read =~= path);
}

/// The byte form of a route.
pub fn encode_path(path: &Vec<AlkaneId>) -> (r: Vec<u8>)
    ensures
        r@ == path_bytes_of(path@),
{
    let mut data: Vec<u8> = Vec::new();
    let mut i: usize = 0;
    while i < path.len()
        invariant
            0 <= i <= path@.len(),
            data@ == path_bytes_of(path@.take(i as int)),
        decreases path@.len() - i,
    {
        let id = path[i].to_bytes();
        data.extend_from_slice(id.as_slice());
        proof {
            assert(path@.take(i + 1).drop_last() =~= path@.take(i as int));
            assert(data@ =~= path_bytes_of(path@.take(i + 1)));
        }
        i += 1;
    }
    proof {
        assert(path@.take(i as int) =~= path@);
    }
    data
}

/// The route that bytes hold: see [`path_in`].
pub fn decode_path(bytes: &[u8]) -> (r: Vec<AlkaneId>)
    ensures
        r@ == path_in(bytes@),
{
    let mut path: Vec<AlkaneId> = Vec::new();
    let length = bytes.len();
    let count = length / ID_BYTES;
    let mut i: usize = 0;
    while i < count
        invariant
            0 <= i <= count,
            length == bytes@.len(),
            count == bytes@.len() / 32,
            path@.len() == i,
            forall|j: int| 0 <= j < i ==> path@[j] == id_at(bytes@, 32 * j),
        decreases count - i,
    {
        assert(32 * i + 32 <= bytes@.len()) by {
            assert(i + 1 <= bytes@.len() / 32);
        }
        match AlkaneId::read(bytes, i * 32) {
            Some(id) => {
                path.push(id);
            },
            None => {
                assert(false);
            },
        }
        i += 1;
    }
    assert(path@ =~= path_in(bytes@));
    path
}

impl AMMPathProvider {
    /// The routes as a map from pairs in canonical order.
    pub open spec fn routes(&self) -> Map<(AlkaneId, AlkaneId), Seq<AlkaneId>> {
        path_map(self.paths@)
    }

    /// The route kept for a pair, whichever way round the pair is given; the
    /// empty route where none is kept.
    pub open spec fn route_of(&self, a: AlkaneId, b: AlkaneId) -> Seq<AlkaneId> {
        if self.routes().dom().contains(sorted_pair(a, b)) {
            self.routes()[sorted_pair(a, b)]
        } else {
            Seq::empty()
        }
    }

    /// Whether the parcel spends at least one unit of the auth token.
    pub open spec fn authorizes(&self, parcel: Seq<AlkaneTransfer>) -> bool {
        exists|i: int|
            0 <= i < parcel.len() && (#[trigger] parcel[i]).id == self.auth_token && parcel[i].value
                >= 1
    }

    /// A path provider that has not been initialized and keeps no route.
    pub fn new() -> (r: Self)
        ensures
            !r.initialized,
            r.auth_token == (AlkaneId { block: 0, tx: 0 }),
            r.paths@.len() == 0,
    {
        AMMPathProvider {
            initialized: false,
            auth_token: AlkaneId { block: 0, tx: 0 },
            paths: Vec::new(),
        }
    }

    /// Initializes the provider, once, with the auth token that was deployed
    /// for it. The response hands back the assets that came with the call
    /// and the auth token. A rejected call changes nothing.
    pub fn init_path_provider(&mut self, context: &Context, auth_token: AlkaneTransfer) -> (r:
        Result<CallResponse, AmmError>)
        ensures
            old(self).initialized ==> r == Err::<CallResponse, AmmError>(
                AmmError::AlreadyInitialized,
            ) && *final(self) == *old(self),
            !old(self).initialized ==> r is Ok && final(self).initialized && final(self).auth_token
                == auth_token.id && final(self).paths == old(self).paths && r->Ok_0.alkanes@
                == context.incoming_alkanes@.push(auth_token) && r->Ok_0.data@ == Seq::<
                u8,
            >::empty(),
    {
        if self.initialized {
            return Err(AmmError::AlreadyInitialized);
        }
        self.initialized = true;
        self.auth_token = auth_token.id;
        let mut response = CallResponse::forward(&context.incoming_alkanes);
        response.alkanes.push(auth_token);
        Ok(response)
    }

    /// Fails with `NotOwner` unless the call spends at least one unit of the
    /// provider's auth token.
    pub fn only_owner(&self, context: &Context) -> (r: Result<(), AmmError>)
        ensures
            r == (if self.authorizes(context.incoming_alkanes@) {
                Ok::<(), AmmError>(())
            } else {
                Err::<(), AmmError>(AmmError::NotOwner)
            }),
    {
        let mut i: usize = 0;
        while i < context.incoming_alkanes.len()
            invariant
                0 <= i <= context.incoming_alkanes@.len(),
                forall|j: int|
                    0 <= j < i ==> !((#[trigger] context.incoming_alkanes@[j]).id == self.auth_token
                        && context.incoming_alkanes@[j].value >= 1),
            decreases context.incoming_alkanes@.len() - i,
        {
            if context.incoming_alkanes[i].id == self.auth_token && context.incoming_alkanes[i].value
                >= 1 {
                assert(context.incoming_alkanes@[i as int].id == self.auth_token
                    && context.incoming_alkanes@[i as int].value >= 1);
                return Ok(());
            }
            i += 1;
        }
        Err(AmmError::NotOwner)
    }

    /// The route kept for a pair, whichever way round the pair is given; the
    /// empty route where none is kept.
    pub fn get_path(&self, alkane_a: &AlkaneId, alkane_b: &AlkaneId) -> (r: Vec<AlkaneId>)
        ensures
            r@ == self.route_of(*alkane_a, *alkane_b),
    {
        let (first, second) = sort_alkanes((*alkane_a, *alkane_b));
        let mut i: usize = self.paths.len();
        while i > 0
            invariant
                0 <= i <= self.paths@.len(),
                (first, second) == sorted_pair(*alkane_a, *alkane_b),
                forall|j: int|
                    i <= j < self.paths@.len() ==> !((#[trigger] self.paths@[j]).token_a == first
                        && self.paths@[j].token_b == second),
            decreases i,
        {
            i -= 1;
            if self.paths[i].token_a == first && self.paths[i].token_b == second {
                proof {
                    lemma_path_map(self.paths@, (first, second));
                }
                return copy_path(&self.paths[i].path);
            }
        }
        proof {
            lemma_path_map(self.paths@, (first, second));
        }
        Vec::new()
    }

    /// The byte form of the route kept for a pair.
    pub fn path_bytes(&self, alkane_a: &AlkaneId, alkane_b: &AlkaneId) -> (r: Vec<u8>)
        ensures
            r@ == path_bytes_of(self.route_of(*alkane_a, *alkane_b)),
    {
        let path = self.get_path(alkane_a, alkane_b);
        encode_path(&path)
    }

    /// Hands back the assets that came with the call, with the byte form of
    /// the route kept for the pair as data.
    pub fn get_optimal_path(&self, context: &Context, start: AlkaneId, end: AlkaneId) -> (r:
        CallResponse)
        ensures
            r.alkanes@ == context.incoming_alkanes@,
            r.data@ == path_bytes_of(self.route_of(start, end)),
    {
        let data = self.path_bytes(&start, &end);
        let mut response = CallResponse::forward(&context.incoming_alkanes);
        response.data = data;
        response
    }

    /// Keeps `optimal_path` as the route of the pair, in place of any route
    /// kept for it before. Only for the owner. A rejected call changes
    /// nothing.
    pub fn set_optimal_path(
        &mut self,
        context: &Context,
        alkane_a: AlkaneId,
        alkane_b: AlkaneId,
        optimal_path: Vec<AlkaneId>,
    ) -> (r: Result<(), AmmError>)
        ensures
            old(self).authorizes(context.incoming_alkanes@) ==> r is Ok && final(self).routes()
                == old(self).routes().insert(sorted_pair(alkane_a, alkane_b), optimal_path@)
                && final(self).initialized == old(self).initialized && final(self).auth_token
                == old(self).auth_token,
            !old(self).authorizes(context.incoming_alkanes@) ==> r == Err::<(), AmmError>(
                AmmError::NotOwner,
            ) && *final(self) == *old(self),
    {
        self.only_owner(context)?;
        let (first, second) = sort_alkanes((alkane_a, alkane_b));
        let mut i: usize = 0;
        while i < self.paths.len() && !(self.paths[i].token_a == first && self.paths[i].token_b
            == second)
            invariant
                0 <= i <= self.paths@.len(),
                *self == *old(self),
            decreases self.paths@.len() - i,
        {
            i += 1;
        }
        if i < self.paths.len() {
            proof {
                lemma_path_map_replace(self.paths@, i as int, optimal_path@);
            }
            let _ = self.paths.remove(i);
        }
        let ghost kept = self.paths@;
        self.paths.push(PathEntry { token_a: first, token_b: second, path: optimal_path });
        proof {
            assert(self.paths@.drop_last() =~= kept);
        }
        Ok(())
    }

    /// Keeps `path` as the route of the pair and hands back the assets that
    /// came with the call. Only for the owner. A rejected call changes
    /// nothing.
    pub fn set_path(
        &mut self,
        context: &Context,
        start: AlkaneId,
        end: AlkaneId,
        path: Vec<AlkaneId>,
    ) -> (r: Result<CallResponse, AmmError>)
        ensures
            old(self).authorizes(context.incoming_alkanes@) ==> {
                &&& r is Ok
                &&& final(self).routes() == old(self).routes().insert(
                    sorted_pair(start, end),
                    path@,
                )
                &&& final(self).initialized == old(self).initialized
                &&& final(self).auth_token == old(self).auth_token
                &&& r->Ok_0.alkanes@ == context.incoming_alkanes@
                &&& r->Ok_0.data@ == Seq::<u8>::empty()
            },
            !old(self).authorizes(context.incoming_alkanes@) ==> r == Err::<
                CallResponse,
                AmmError,
            >(AmmError::NotOwner) && *final(self) == *old(self),
    {
        self.set_optimal_path(context, start, end, path)?;
        Ok(CallResponse::forward(&context.incoming_alkanes))
    }
}

/// A copy of a route.
pub fn copy_path(path: &Vec<AlkaneId>) -> (r: Vec<AlkaneId>)
    ensures
        r@ == path@,
{
    let mut out: Vec<AlkaneId> = Vec::new();
    let mut i: usize = 0;
    while i < path.len()
        invariant
            0 <= i <= path@.len(),
            out@ == path@.take(i as int),
        decreases path@.len() - i,
    {
        out.push(path[i]);
        assert(out@ =~= path@.take(i + 1));
        i += 1;
    }
    assert(path@.take(i as int) =~= path@);
    out
}

/// Setting the route of a pair gives the same routes whether or not an
/// entry for the pair is taken out first.
pub proof fn lemma_path_map_replace(entries: Seq<PathEntry>, i: int, path: Seq<AlkaneId>)
    requires
        0 <= i < entries.len(),
    ensures
        path_map(entries.remove(i)).insert((entries[i].token_a, entries[i].token_b), path)
            == path_map(entries).insert((entries[i].token_a, entries[i].token_b), path),
    decreases entries.len(),
{
    let key = (entries[i].token_a, entries[i].token_b);
    let front = entries.drop_last();
    let last = entries.last();
    if i == entries.len() - 1 {
        assert(entries.remove(i) =~= front);
        assert(path_map(front).insert(key, last.path@).insert(key, path) =~= path_map(front).insert(
            key,
            path,
        ));
    } else {
        lemma_path_map_replace(front, i, path);
        assert(front[i] == entries[i]);
        assert(entries.remove(i).drop_last() =~= front.remove(i));
        assert(entries.remove(i).last() == last);
        let last_key = (last.token_a, last.token_b);
        let shorter = path_map(front.remove(i));
        let full = path_map(front);
        assert(shorter.insert(last_key, last.path@).insert(key, path) =~= shorter.insert(key, path).insert(
            last_key,
            last.path@,
        ).insert(key, path));
        assert(full.insert(last_key, last.path@).insert(key, path) =~= full.insert(key, path).insert(
            last_key,
            last.path@,
        ).insert(key, path));
    }
}

/// A pair is in the map of the routes exactly where an entry holds it, and
/// the map gives the route of the last such entry.
pub proof fn lemma_path_map(entries: Seq<PathEntry>, key: (AlkaneId, AlkaneId))
    ensures
        path_map(entries).dom().contains(key) <==> exists|i: int|
            0 <= i < entries.len() && (#[trigger] entries[i]).token_a == key.0 && entries[i].token_b
                == key.1,
        forall|i: int|
            0 <= i < entries.len() && (#[trigger] entries[i]).token_a == key.0 && entries[i].token_b
                == key.1 && (forall|j: int|
                i < j < entries.len() ==> !((#[trigger] entries[j]).token_a == key.0
                    && entries[j].token_b == key.1)) ==> path_map(entries)[key] == entries[i].path@,
    decreases entries.len(),
{
    if entries.len() > 0 {
        let front = entries.drop_last();
        lemma_path_map(front, key);
        let last = entries.last();
        if last.token_a == key.0 && last.token_b == key.1 {
            assert(entries[entries.len() - 1] == last);
        } else {
            if path_map(entries).dom().contains(key) {
                let i = choose|i: int|
                    0 <= i < front.len() && (#[trigger] front[i]).token_a == key.0
                        && front[i].token_b == key.1;
                assert(entries[i] == front[i]);
            }
            if exists|i: int|
                0 <= i < entries.len() && (#[trigger] entries[i]).token_a == key.0
                    && entries[i].token_b == key.1 {
                let i = choose|i: int|
                    0 <= i < entries.len() && (#[trigger] entries[i]).token_a == key.0
                        && entries[i].token_b == key.1;
                assert(front[i] == entries[i]);
            }
        }
        assert forall|i: int|
            0 <= i < entries.len() && (#[trigger] entries[i]).token_a == key.0 && entries[i].token_b
                == key.1 && (forall|j: int|
                i < j < entries.len() ==> !((#[trigger] entries[j]).token_a == key.0
                    && entries[j].token_b == key.1)) implies path_map(entries)[key]
            == entries[i].path@ by {
            if i < entries.len() - 1 {
                assert(front[i] == entries[i]);
                assert(!(entries[entries.len() - 1].token_a == key.0 && entries[entries.len()
                    - 1].token_b == key.1));
                assert forall|j: int| i < j < front.len() implies !((#[trigger] front[j]).token_a
                    == key.0 && front[j].token_b == key.1) by {
                    assert(front[j] == entries[j]);
                }
            }
        }
    }
}

impl Default for AMMPathProvider {
    /// The same as [`AMMPathProvider::new`].
    fn default() -> (r: Self)
        ensures
            !r.initialized,
            r.auth_token == (AlkaneId { block: 0, tx: 0 }),
            r.paths@.len() == 0,
    {
        AMMPathProvider::new()
    }
}

} // verus!

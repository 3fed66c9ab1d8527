//! Multi-path.
//!
//! An Aether connection is named by its connection id, not by an address,
//! so it can run over several network paths at once:
//!
//! 1. The client notices a new interface (Wi-Fi, then 5G).
//! 2. It sends a PathChallenge from the new address.
//! 3. The server answers with a PathResponse: the path is validated.
//! 4. Data flows over every active path.
//! 5. When a path fails, traffic moves to the others without a break.
//!
//! Paths are kept by id with the addresses of the caller's choosing (`A`)
//! and times in milliseconds of the caller's clock.

use vstd::prelude::*;

use crate::crypto::generate_path_nonce;
use crate::error::{Error, Result};
use crate::framing::{spec_path_frame, u64_of, ExtType, ExtView, Frame, FrameType};
use crate::stream::iter_next;
use std::collections::HashMap;
use vstd::std_specs::iter::IteratorSpec;

verus! {

broadcast use vstd::std_specs::hash::group_hash_axioms;

/// Path id (8 bits, 0 to 255).
pub type PathId = u8;

/// State of one network path.
#[derive(Debug, Clone)]
pub struct PathState<A> {
    /// Path id.
    pub id: PathId,
    /// Local address.
    pub local_addr: A,
    /// The peer's address on this path.
    pub remote_addr: A,
    /// Whether the path is validated and in use.
    pub active: bool,
    /// Last RTT sample in microseconds.
    pub rtt_us: u64,
    /// Packets lost on this path.
    pub packets_lost: u64,
    /// Packets sent on this path.
    pub packets_sent: u64,
    /// Time of the last activity, in milliseconds.
    pub last_active_ms: u64,
    /// Nonce of the PathChallenge awaiting its response.
    pub challenge_nonce: Option<u64>,
}

impl<A> PathState<A> {
    /// A path not yet validated, with nothing counted.
    pub open spec fn spec_new(id: PathId, local_addr: A, remote_addr: A, now_ms: u64) -> PathState<A> {
        PathState {
            id,
            local_addr,
            remote_addr,
            active: false,
            rtt_us: 0,
            packets_lost: 0,
            packets_sent: 0,
            last_active_ms: now_ms,
            challenge_nonce: None,
        }
    }

    /// A path not yet validated, last active at `now_ms`.
    pub fn new(id: PathId, local_addr: A, remote_addr: A, now_ms: u64) -> (res: Self)
        ensures
            res == PathState::spec_new(id, local_addr, remote_addr, now_ms),
    {
        PathState {
            id,
            local_addr,
            remote_addr,
            active: false,
            rtt_us: 0,
            packets_lost: 0,
            packets_sent: 0,
            last_active_ms: now_ms,
            challenge_nonce: None,
        }
    }
}

/// The value of the first PathId extension, if there is one.
pub open spec fn first_path_id_ext(exts: Seq<ExtView>) -> Option<Seq<u8>>
    decreases exts.len(),
{
    if exts.len() == 0 {
        None
    } else if exts[0].0 == ExtType::PathId {
        Some(exts[0].1)
    } else {
        first_path_id_ext(exts.drop_first())
    }
}

/// The path id a packet names: the first byte of its first PathId
/// extension.
pub open spec fn spec_path_id_of(exts: Seq<ExtView>) -> Option<PathId> {
    match first_path_id_ext(exts) {
        Some(v) => if v.len() > 0 {
            Some(v[0])
        } else {
            None
        },
        None => None,
    }
}

/// The nonce a path-validation packet carries: its first eight payload
/// bytes, big-endian.
pub open spec fn spec_nonce_of(payload: Seq<u8>) -> u64 {
    u64_of(payload, 0)
}

/// Whether a path timed out at `now_ms`: active and idle for longer than
/// `timeout_ms` (the idle time is 0 when the clock reads earlier).
pub open spec fn timed_out<A>(p: PathState<A>, now_ms: u64, timeout_ms: u64) -> bool {
    p.active && (if now_ms >= p.last_active_ms {
        now_ms - p.last_active_ms
    } else {
        0
    }) > timeout_ms
}

/// The paths of a connection.
#[derive(Debug)]
pub struct PathManager<A> {
    /// Every known path.
    paths: HashMap<PathId, PathState<A>>,
    /// The id the next challenge gets.
    next_path_id: PathId,
    /// The primary path (the handshake's).
    pub primary_path_id: PathId,
    /// Most paths at once.
    max_paths: usize,
    /// The connection's id.
    connection_id: u64,
}

impl<A> PathManager<A> {
    /// The paths by id.
    pub closed spec fn path_map(&self) -> Map<PathId, PathState<A>> {
        self.paths@
    }

    /// The primary path's id.
    pub closed spec fn primary(&self) -> PathId {
        self.primary_path_id
    }

    /// The id the next challenge gets.
    pub closed spec fn next_id(&self) -> PathId {
        self.next_path_id
    }

    /// Most paths at once.
    pub closed spec fn path_limit(&self) -> usize {
        self.max_paths
    }

    /// The connection's id.
    pub closed spec fn spec_connection_id(&self) -> u64 {
        self.connection_id
    }

    /// The connection id the path packets carry: the high half of ours.
    pub open spec fn frame_cid(&self) -> u32 {
        (self.spec_connection_id() >> 32u64) as u32
    }

    /// Everything but the paths and the primary path is as in `other`.
    pub closed spec fn same_settings(&self, other: &PathManager<A>) -> bool {
        &&& self.next_path_id == other.next_path_id
        &&& self.max_paths == other.max_paths
        &&& self.connection_id == other.connection_id
    }

    /// A manager without paths; challenges start at id 1.
    pub fn new(connection_id: u64, max_paths: usize) -> (res: Self)
        ensures
            res.path_map() == Map::<PathId, PathState<A>>::empty(),
            res.next_id() == 1,
            res.primary() == 0,
            res.path_limit() == max_paths,
            res.spec_connection_id() == connection_id,
    {
        PathManager {
            paths: HashMap::new(),
            next_path_id: 1,
            primary_path_id: 0,
            max_paths,
            connection_id,
        }
    }

    /// Register the primary path (id 0), active from the start.
    pub fn register_primary(&mut self, local_addr: A, remote_addr: A, now_ms: u64) -> (res: PathId)
        ensures
            res == 0,
            final(self).primary() == 0,
            final(self).same_settings(old(self)),
            final(self).path_map() == old(self).path_map().insert(
                0,
                PathState { active: true, ..PathState::spec_new(0, local_addr, remote_addr, now_ms) },
            ),
    {
        let mut path = PathState::new(0, local_addr, remote_addr, now_ms);
        path.active = true;
        self.paths.insert(0, path);
        self.primary_path_id = 0;
        0
    }

    /// Open a path: a PathChallenge with a fresh random nonce, and the new
    /// path, not yet validated, waiting for that nonce. Fails with
    /// `FlowControl` when `max_paths` paths exist. Ids are handed out in
    /// turn and wrap after 255.
    pub fn create_path_challenge(&mut self, local_addr: A, remote_addr: A, now_ms: u64) -> (res: Result<(Frame, PathId)>)
        ensures
            final(self).primary() == old(self).primary(),
            final(self).path_limit() == old(self).path_limit(),
            final(self).spec_connection_id() == old(self).spec_connection_id(),
            old(self).path_map().len() <= old(self).path_limit() ==> final(self).path_map().len()
                <= final(self).path_limit(),
            if old(self).path_map().len() >= old(self).path_limit() {
                &&& res matches Err(e) && e is FlowControl
                &&& final(self).path_map() == old(self).path_map()
                &&& final(self).next_id() == old(self).next_id()
            } else {
                &&& res matches Ok((f, id)) && id == old(self).next_id()
                &&& final(self).next_id() == (if old(self).next_id() == 255 {
                    0u8
                } else {
                    (old(self).next_id() + 1) as u8
                })
                &&& exists|nonce: u64|
                    #![trigger spec_path_frame(FrameType::PathChallenge, old(self).frame_cid(), old(self).next_id(), nonce)]
                    res->Ok_0.0@ == spec_path_frame(
                        FrameType::PathChallenge,
                        old(self).frame_cid(),
                        old(self).next_id(),
                        nonce,
                    ) && final(self).path_map() == old(self).path_map().insert(
                        old(self).next_id(),
                        PathState {
                            challenge_nonce: Some(nonce),
                            ..PathState::spec_new(old(self).next_id(), local_addr, remote_addr, now_ms)
                        },
                    )
            },
    {
        if self.paths.len() >= self.max_paths {
            return Err(Error::FlowControl("Maximum paths reached".to_string()));
        }
        let path_id = self.next_path_id;
        self.next_path_id = self.next_path_id.wrapping_add(1);
        let nonce = generate_path_nonce();
        let mut path = PathState::new(path_id, local_addr, remote_addr, now_ms);
        path.challenge_nonce = Some(nonce);
        self.paths.insert(path_id, path);
        let frame = Frame::path_challenge((self.connection_id >> 32u64) as u32, path_id, nonce);
        proof {
            assert(frame@ == spec_path_frame(
                FrameType::PathChallenge,
                old(self).frame_cid(),
                old(self).next_id(),
                nonce,
            ));
            assert(self.paths@ == old(self).paths@.insert(path_id, path));
            assert(self.paths@.dom() =~= old(self).paths@.dom().insert(path_id));
        }
        Ok((frame, path_id))
    }

    /// A PathResponse arrived: when it names a known path and echoes its
    /// challenge's nonce, the path is validated (active, no pending nonce,
    /// active at `now_ms`). Fails with `ProtocolViolation` when the packet
    /// names no path, its payload is shorter than the nonce, or the path is
    /// unknown; with `Crypto` when the nonce differs. Nothing changes then.
    pub fn handle_path_response(&mut self, frame: &Frame, now_ms: u64) -> (res: Result<PathId>)
        ensures
            final(self).same_settings(old(self)),
            final(self).primary() == old(self).primary(),
            match spec_path_id_of(frame@.extensions) {
                None => res matches Err(e) && e is ProtocolViolation && final(self).path_map() == old(self).path_map(),
                Some(id) => if frame@.payload.len() < 8 || !old(self).path_map().contains_key(id) {
                    res matches Err(e) && e is ProtocolViolation && final(self).path_map() == old(self).path_map()
                } else if old(self).path_map()[id].challenge_nonce != Some(spec_nonce_of(frame@.payload)) {
                    res matches Err(e) && e is Crypto && final(self).path_map() == old(self).path_map()
                } else {
                    &&& res == Ok::<PathId, Error>(id)
                    &&& final(self).path_map() == old(self).path_map().insert(
                        id,
                        PathState {
                            active: true,
                            challenge_nonce: None,
                            last_active_ms: now_ms,
                            ..old(self).path_map()[id]
                        },
                    )
                },
            },
    {
        let path_id = match self.extract_path_id(frame) {
            Ok(id) => id,
            Err(e) => {
                return Err(e);
            },
        };
        if frame.payload.len() < 8 {
            return Err(Error::ProtocolViolation("PathResponse payload too short".to_string()));
        }
        let nonce = read_nonce(&frame.payload);
        let matches = match self.paths.get(&path_id) {
            None => {
                return Err(Error::ProtocolViolation("Unknown path ID".to_string()));
            },
            Some(path) => match path.challenge_nonce {
                Some(n) => n == nonce,
                None => false,
            },
        };
        if !matches {
            return Err(Error::Crypto("PathResponse nonce mismatch".to_string()));
        }
        let mut path = self.paths.remove(&path_id).unwrap();
        path.active = true;
        path.challenge_nonce = None;
        path.last_active_ms = now_ms;
        self.paths.insert(path_id, path);
        proof {
            assert(self.paths@ =~= old(self).paths@.insert(path_id, path));
        }
        Ok(path_id)
    }

    /// A PathChallenge arrived on (`remote_addr`, `local_addr`): the path
    /// it names is created if new, takes `remote_addr`, is active at
    /// `now_ms`, and the PathResponse echoing the nonce is returned. Fails
    /// with `ProtocolViolation` when the packet names no path or its payload
    /// is shorter than the nonce; nothing changes then.
    pub fn handle_path_challenge(
        &mut self,
        frame: &Frame,
        remote_addr: A,
        local_addr: A,
        now_ms: u64,
    ) -> (res: Result<(Frame, PathId)>)
        ensures
            final(self).same_settings(old(self)),
            final(self).primary() == old(self).primary(),
            match spec_path_id_of(frame@.extensions) {
                None => res matches Err(e) && e is ProtocolViolation && final(self).path_map() == old(self).path_map(),
                Some(id) => if frame@.payload.len() < 8 {
                    res matches Err(e) && e is ProtocolViolation && final(self).path_map() == old(self).path_map()
                } else {
                    let base = if old(self).path_map().contains_key(id) {
                        old(self).path_map()[id]
                    } else {
                        PathState::spec_new(id, local_addr, remote_addr, now_ms)
                    };
                    &&& res matches Ok((f, pid)) && pid == id && f@ == spec_path_frame(
                        FrameType::PathResponse,
                        old(self).frame_cid(),
                        id,
                        spec_nonce_of(frame@.payload),
                    )
                    &&& final(self).path_map() == old(self).path_map().insert(
                        id,
                        PathState { remote_addr, last_active_ms: now_ms, active: true, ..base },
                    )
                },
            },
    {
        let path_id = match self.extract_path_id(frame) {
            Ok(id) => id,
            Err(e) => {
                return Err(e);
            },
        };
        if frame.payload.len() < 8 {
            return Err(Error::ProtocolViolation("PathChallenge payload too short".to_string()));
        }
        let nonce = read_nonce(&frame.payload);
        let mut path = match self.paths.remove(&path_id) {
            Some(mut p) => {
                p.remote_addr = remote_addr;
                p
            },
            None => PathState::new(path_id, local_addr, remote_addr, now_ms),
        };
        path.last_active_ms = now_ms;
        let response = Frame::path_response((self.connection_id >> 32u64) as u32, path_id, nonce);
        path.active = true;
        self.paths.insert(path_id, path);
        proof {
            assert(self.paths@ =~= old(self).paths@.insert(path_id, path));
        }
        Ok((response, path_id))
    }

    /// Take a path out of use (on a timeout or an error); unknown ids are
    /// ignored.
    pub fn deactivate_path(&mut self, path_id: PathId)
        ensures
            final(self).same_settings(old(self)),
            final(self).primary() == old(self).primary(),
            final(self).path_map() == if old(self).path_map().contains_key(path_id) {
                old(self).path_map().insert(
                    path_id,
                    PathState { active: false, ..old(self).path_map()[path_id] },
                )
            } else {
                old(self).path_map()
            },
    {
        if let Some(mut path) = self.paths.remove(&path_id) {
            path.active = false;
            self.paths.insert(path_id, path);
            proof {
                assert(self.paths@ =~= old(self).paths@.insert(path_id, path));
            }
        } else {
            proof {
                assert(self.paths@ =~= old(self).paths@);
            }
        }
    }

    /// The path with this id, if known.
    pub fn get_path(&self, path_id: PathId) -> (res: Option<&PathState<A>>)
        ensures
            match res {
                Some(p) => self.path_map().contains_key(path_id) && *p == self.path_map()[path_id],
                None => !self.path_map().contains_key(path_id),
            },
    {
        self.paths.get(&path_id)
    }

    /// Set the RTT of a known path; unknown ids are ignored.
    pub fn set_rtt(&mut self, path_id: PathId, rtt_us: u64)
        ensures
            final(self).same_settings(old(self)),
            final(self).primary() == old(self).primary(),
            final(self).path_map() == if old(self).path_map().contains_key(path_id) {
                old(self).path_map().insert(path_id, PathState { rtt_us, ..old(self).path_map()[path_id] })
            } else {
                old(self).path_map()
            },
    {
        if let Some(mut path) = self.paths.remove(&path_id) {
            path.rtt_us = rtt_us;
            self.paths.insert(path_id, path);
            proof {
                assert(self.paths@ =~= old(self).paths@.insert(path_id, path));
            }
        } else {
            proof {
                assert(self.paths@ =~= old(self).paths@);
            }
        }
    }

    /// Count a packet sent on a path, active at `now_ms`; unknown ids are
    /// ignored.
    pub fn record_send(&mut self, path_id: PathId, now_ms: u64)
        requires
            old(self).path_map().contains_key(path_id) ==> old(self).path_map()[path_id].packets_sent
                < u64::MAX,
        ensures
            final(self).same_settings(old(self)),
            final(self).primary() == old(self).primary(),
            final(self).path_map() == if old(self).path_map().contains_key(path_id) {
                let p = old(self).path_map()[path_id];
                old(self).path_map().insert(
                    path_id,
                    PathState { packets_sent: (p.packets_sent + 1) as u64, last_active_ms: now_ms, ..p },
                )
            } else {
                old(self).path_map()
            },
    {
        if let Some(mut path) = self.paths.remove(&path_id) {
            path.packets_sent = path.packets_sent + 1;
            path.last_active_ms = now_ms;
            self.paths.insert(path_id, path);
            proof {
                assert(self.paths@ =~= old(self).paths@.insert(path_id, path));
            }
        } else {
            proof {
                assert(self.paths@ =~= old(self).paths@);
            }
        }
    }

    /// Count a packet lost on a path; unknown ids are ignored.
    pub fn record_loss(&mut self, path_id: PathId)
        requires
            old(self).path_map().contains_key(path_id) ==> old(self).path_map()[path_id].packets_lost
                < u64::MAX,
        ensures
            final(self).same_settings(old(self)),
            final(self).primary() == old(self).primary(),
            final(self).path_map() == if old(self).path_map().contains_key(path_id) {
                let p = old(self).path_map()[path_id];
                old(self).path_map().insert(
                    path_id,
                    PathState { packets_lost: (p.packets_lost + 1) as u64, ..p },
                )
            } else {
                old(self).path_map()
            },
    {
        if let Some(mut path) = self.paths.remove(&path_id) {
            path.packets_lost = path.packets_lost + 1;
            self.paths.insert(path_id, path);
            proof {
                assert(self.paths@ =~= old(self).paths@.insert(path_id, path));
            }
        } else {
            proof {
                assert(self.paths@ =~= old(self).paths@);
            }
        }
    }

    /// Ids of the active paths, each once, in no particular order.
    pub fn active_paths(&self) -> (res: Vec<PathId>)
        ensures
            res@.no_duplicates(),
            forall|id: PathId|
                #[trigger] res@.contains(id) <==> self.path_map().contains_key(id)
                    && self.path_map()[id].active,
    {
        self.filter_ids(true)
    }

    /// Take out of use every active path idle for longer than `timeout_ms`
    /// at `now_ms`.
    pub fn check_timeouts(&mut self, timeout_ms: u64, now_ms: u64)
        ensures
            final(self).same_settings(old(self)),
            final(self).primary() == old(self).primary(),
            final(self).path_map().dom() == old(self).path_map().dom(),
            forall|id: PathId|
                #[trigger] old(self).path_map().contains_key(id) ==> final(self).path_map()[id]
                    == if timed_out(old(self).path_map()[id], now_ms, timeout_ms) {
                    PathState { active: false, ..old(self).path_map()[id] }
                } else {
                    old(self).path_map()[id]
                },
    {
        let ids = self.filter_ids(false);
        let mut i: usize = 0;
        while i < ids.len()
            invariant
                i <= ids@.len(),
                ids@.no_duplicates(),
                ids@.to_set() == old(self).path_map().dom(),
                self.same_settings(old(self)),
                self.primary() == old(self).primary(),
                self.path_map().dom() == old(self).path_map().dom(),
                forall|k: int|
                    0 <= k < i ==> #[trigger] self.path_map()[ids@[k]] == if timed_out(
                        old(self).path_map()[ids@[k]],
                        now_ms,
                        timeout_ms,
                    ) {
                        PathState { active: false, ..old(self).path_map()[ids@[k]] }
                    } else {
                        old(self).path_map()[ids@[k]]
                    },
                forall|k: int| i <= k < ids@.len() ==> #[trigger] self.path_map()[ids@[k]] == old(
                    self,
                ).path_map()[ids@[k]],
            decreases ids@.len() - i,
        {
            let id = ids[i];
            assert(ids@.to_set().contains(id));
            let expire = match self.paths.get(&id) {
                Some(p) => {
                    let idle: u64 = if now_ms >= p.last_active_ms {
                        now_ms - p.last_active_ms
                    } else {
                        0
                    };
                    p.active && idle > timeout_ms
                },
                None => false,
            };
            if expire {
                self.deactivate_path(id);
                proof {
                    assert forall|k: int| 0 <= k < ids@.len() && k != i implies ids@[k] != id by {
                        assert(ids@[k] != ids@[i as int]);
                    }
                }
            }
            i = i + 1;
        }
        proof {
            assert forall|id: PathId| #[trigger] old(self).path_map().contains_key(id) implies self.path_map()[id]
                == if timed_out(old(self).path_map()[id], now_ms, timeout_ms) {
                PathState { active: false, ..old(self).path_map()[id] }
            } else {
                old(self).path_map()[id]
            } by {
                assert(ids@.to_set().contains(id));
                let k = ids@.index_of(id);
                assert(ids@[k] == id);
            }
        }
    }

    /// Ids of all paths, or (with `only_active`) of the active ones.
    fn filter_ids(&self, only_active: bool) -> (res: Vec<PathId>)
        ensures
            res@.no_duplicates(),
            forall|id: PathId|
                #[trigger] res@.contains(id) <==> self.path_map().contains_key(id) && (only_active
                    ==> self.path_map()[id].active),
            !only_active ==> res@.to_set() == self.path_map().dom(),
    {
        let mut res: Vec<PathId> = Vec::new();
        let mut iter = self.paths.iter();
        let ghost all = iter.remaining();
        let ghost mut k: int = 0;
        let ghost m = self.paths@;
        assert(all.take(0) =~= Seq::<(&PathId, &PathState<A>)>::empty());
        assert(all.skip(0) =~= all);
        loop
            invariant_except_break
                iter.remaining() == all.skip(k),
            invariant
                0 <= k <= all.len(),
                all.no_duplicates(),
                m == self.paths@,
                forall|i: int| 0 <= i < all.len() ==> m.contains_key(*all[i].0) && m[*all[i].0] == *all[i].1,
                forall|key: PathId| #[trigger] m.contains_key(key) ==> all.contains((&key, &m[key])),
                res@ == kept_paths(all.take(k), only_active),
                all.len() == self.paths@.dom().len(),
            ensures
                k == all.len(),
            decreases self.paths@.dom().len() - k,
        {
            match iter_next(&mut iter) {
                Some(item) => {
                    let (id, p) = item;
                    proof {
                        assert(all.take(k + 1).drop_last() =~= all.take(k));
                        assert(all.take(k + 1).last() == all[k]);
                        assert(all.skip(k + 1) =~= all.skip(k).drop_first());
                    }
                    if !only_active || p.active {
                        res.push(*id);
                    }
                    proof {
                        k = k + 1;
                    }
                },
                None => {
                    break ;
                },
            }
        }
        proof {
            assert(all.take(all.len() as int) =~= all);
            lemma_kept_paths(all, only_active, self.paths@);
        }
        res
    }

    /// The id of the first PathId extension's first byte. Fails with
    /// `ProtocolViolation` when that extension is empty or missing.
    fn extract_path_id(&self, frame: &Frame) -> (res: Result<PathId>)
        ensures
            match spec_path_id_of(frame@.extensions) {
                Some(id) => res == Ok::<PathId, Error>(id),
                None => res matches Err(e) && e is ProtocolViolation,
            },
    {
        let mut i: usize = 0;
        let ghost exts = frame@.extensions;
        assert(exts.skip(0) =~= exts);
        while i < frame.extensions.len()
            invariant
                exts == frame@.extensions,
                exts.len() == frame.extensions@.len(),
                i <= exts.len(),
                first_path_id_ext(exts) == first_path_id_ext(exts.skip(i as int)),
            decreases exts.len() - i,
        {
            let ext = &frame.extensions[i];
            proof {
                assert(exts.skip(i as int)[0] == exts[i as int]);
                assert(exts.skip(i as int).drop_first() =~= exts.skip(i + 1));
            }
            if matches!(ext.ext_type, ExtType::PathId) {
                if ext.value.len() == 0 {
                    return Err(Error::ProtocolViolation("Empty PathId extension".to_string()));
                }
                return Ok(ext.value[0]);
            }
            i = i + 1;
        }
        proof {
            assert(exts.skip(i as int).len() == 0);
        }
        Err(Error::ProtocolViolation("Missing PathId extension".to_string()))
    }
}

/// The ids of the pairs whose path passes the filter (all of them unless
/// `only_active`).
pub open spec fn kept_paths<A>(s: Seq<(&PathId, &PathState<A>)>, only_active: bool) -> Seq<PathId>
    decreases s.len(),
{
    if s.len() == 0 {
        Seq::empty()
    } else {
        let k = kept_paths(s.drop_last(), only_active);
        if !only_active || (*s.last().1).active {
            k.push(*s.last().0)
        } else {
            k
        }
    }
}

proof fn lemma_kept_paths_contains<A>(s: Seq<(&PathId, &PathState<A>)>, only_active: bool, id: PathId)
    ensures
        kept_paths(s, only_active).contains(id) <==> exists|j: int|
            0 <= j < s.len() && *s[j].0 == id && (!only_active || (*s[j].1).active),
    decreases s.len(),
{
    if s.len() > 0 {
        lemma_kept_paths_contains(s.drop_last(), only_active, id);
        let k = kept_paths(s.drop_last(), only_active);
        if kept_paths(s, only_active).contains(id) {
            if k.contains(id) {
                let j = choose|j: int|
                    0 <= j < s.drop_last().len() && *s.drop_last()[j].0 == id && (!only_active
                        || (*s.drop_last()[j].1).active);
                assert(s[j] == s.drop_last()[j]);
            } else {
                let i = choose|i: int|
                    0 <= i < kept_paths(s, only_active).len() && kept_paths(s, only_active)[i] == id;
                assert(i == k.len());
                assert(*s[s.len() - 1].0 == id);
            }
        }
        if exists|j: int| 0 <= j < s.len() && *s[j].0 == id && (!only_active || (*s[j].1).active) {
            let j = choose|j: int|
                0 <= j < s.len() && *s[j].0 == id && (!only_active || (*s[j].1).active);
            if j < s.len() - 1 {
                assert(s.drop_last()[j] == s[j]);
                assert(k.contains(id));
                let i = choose|i: int| 0 <= i < k.len() && k[i] == id;
                assert(kept_paths(s, only_active)[i] == id);
            } else {
                assert(kept_paths(s, only_active) == k.push(id));
                assert(kept_paths(s, only_active)[k.len() as int] == id);
            }
        }
    }
}

proof fn lemma_kept_paths_distinct<A>(s: Seq<(&PathId, &PathState<A>)>, only_active: bool)
    requires
        forall|i: int, j: int| 0 <= i < j < s.len() ==> *s[i].0 != *s[j].0,
    ensures
        kept_paths(s, only_active).no_duplicates(),
    decreases s.len(),
{
    if s.len() > 0 {
        let d = s.drop_last();
        assert forall|i: int, j: int| 0 <= i < j < d.len() implies *d[i].0 != *d[j].0 by {
            assert(d[i] == s[i] && d[j] == s[j]);
        }
        lemma_kept_paths_distinct(d, only_active);
        let last = *s.last().0;
        lemma_kept_paths_contains(d, only_active, last);
        if kept_paths(d, only_active).contains(last) {
            let j = choose|j: int|
                0 <= j < d.len() && *d[j].0 == last && (!only_active || (*d[j].1).active);
            assert(s[j] == d[j]);
            assert(false);
        }
    }
}

proof fn lemma_kept_paths<A>(v: Seq<(&PathId, &PathState<A>)>, only_active: bool, m: Map<PathId, PathState<A>>)
    requires
        v.no_duplicates(),
        forall|i: int| 0 <= i < v.len() ==> m.contains_key(*v[i].0) && m[*v[i].0] == *v[i].1,
        forall|k: PathId| #[trigger] m.contains_key(k) ==> v.contains((&k, &m[k])),
    ensures
        kept_paths(v, only_active).no_duplicates(),
        forall|id: PathId|
            #[trigger] kept_paths(v, only_active).contains(id) <==> m.contains_key(id) && (
            only_active ==> m[id].active),
        !only_active ==> kept_paths(v, only_active).to_set() == m.dom(),
{
    assert forall|i: int, j: int| 0 <= i < j < v.len() implies *v[i].0 != *v[j].0 by {
        if *v[i].0 == *v[j].0 {
            assert(m[*v[i].0] == *v[i].1);
            assert(m[*v[j].0] == *v[j].1);
            assert(v[i] == v[j]);
        }
    }
    lemma_kept_paths_distinct(v, only_active);
    assert forall|id: PathId|
        #[trigger] kept_paths(v, only_active).contains(id) <==> m.contains_key(id) && (only_active
            ==> m[id].active) by {
        lemma_kept_paths_contains(v, only_active, id);
        if m.contains_key(id) {
            assert(v.contains((&id, &m[id])));
            let j = choose|j: int| 0 <= j < v.len() && v[j] == (&id, &m[id]);
            assert(*v[j].0 == id);
        }
    }
    if !only_active {
        assert(kept_paths(v, only_active).to_set() =~= m.dom());
    }
}

/// The first eight bytes, big-endian.
fn read_nonce(payload: &Vec<u8>) -> (res: u64)
    requires
        payload@.len() >= 8,
    ensures
        res == spec_nonce_of(payload@),
{
    ((payload[0] as u64) << 56u64) | ((payload[1] as u64) << 48u64) | ((payload[2] as u64)
        << 40u64) | ((payload[3] as u64) << 32u64) | ((payload[4] as u64) << 24u64) | ((
    payload[5] as u64) << 16u64) | ((payload[6] as u64) << 8u64) | (payload[7] as u64)
}

} // verus!

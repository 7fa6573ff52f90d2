use vstd::prelude::*;
use std::sync::Arc;
use crate::attrs::{configures, takes_empty, AttrMap, AttrV};
use crate::level::Level;

verus! {

/// What one frame of a context chain holds: the frame's identity, its own
/// attributes and the minimum level it logs at, if it logs at all.
pub struct FrameV {
    pub id: usize,
    pub attrs: Seq<AttrV>,
    pub log_from: Option<Level>,
}

#[derive(Debug)]
struct Frame {
    parent: Option<Log>,
    attrs: AttrMap,
    log_from: Option<Level>,
}

/// A context chain, held by its newest frame. Frames are shared by every `Log` and
/// `Error` that refers to them and never change once made. A frame holds only the
/// attributes added when it was made; those of its ancestors are found by walking
/// toward the root.
#[derive(Debug)]
pub struct Log {
    id: usize,
    frame: Arc<Frame>,
}

/// Relies on `Arc::as_ptr`: the address of the frame's allocation, which is the
/// same for every handle to the frame and differs between frames that are alive at
/// the same time. Nothing about its value is assumed.
#[verifier::external_body]
fn frame_address(f: &Arc<Frame>) -> usize {
    Arc::as_ptr(f) as usize
}

/// Relies on `Arc::clone`: the new handle points to the same frame.
#[verifier::external_body]
fn share_frame(f: &Arc<Frame>) -> (r: Arc<Frame>)
    ensures
        r == *f,
{
    Arc::clone(f)
}

/// The minimum level `m` raised to `to` if it is lower; no minimum stays none.
pub open spec fn raised(m: Option<Level>, to: Level) -> Option<Level> {
    match m {
        Some(x) => Some(if x.rank() >= to.rank() { x } else { to }),
        None => None,
    }
}

impl Log {
    /// The frames of the chain, from this one to the root.
    pub closed spec fn frames(self) -> Seq<FrameV>
        decreases self,
    {
        let head = FrameV { id: self.id, attrs: self.frame.attrs@, log_from: self.frame.log_from };
        match self.frame.parent {
            Some(p) => seq![head] + p.frames(),
            None => seq![head],
        }
    }

    /// Every chain has at least its own frame.
    pub proof fn lemma_every_chain_nonempty()
        ensures
            forall|l: Log| #[trigger] l.frames().len() >= 1,
    {
        assert forall|l: Log| #[trigger] l.frames().len() >= 1 by {
            reveal_with_fuel(Log::frames, 1);
        }
    }

    /// The minimum level of the chain: that of its first frame.
    pub open spec fn min_level(self) -> Option<Level> {
        self.frames()[0].log_from
    }

    /// Whether a message at `level` is emitted through this chain.
    pub open spec fn emits(self, level: Level) -> bool {
        match self.min_level() {
            None => false,
            Some(m) => level.rank() >= m.rank(),
        }
    }

    /// A root frame with no attributes and no minimum level: it gathers
    /// attributes for errors and never logs.
    pub fn new() -> (r: Log)
        ensures
            r.frames().len() == 1,
            r.frames()[0].attrs.len() == 0,
            r.frames()[0].log_from == None::<Level>,
    {
        Log::make(None, AttrMap::new(), None)
    }

    /// A root frame with no attributes that logs messages at `log_from` and above.
    pub fn new_root(log_from: Level) -> (r: Log)
        ensures
            r.frames().len() == 1,
            r.frames()[0].attrs.len() == 0,
            r.frames()[0].log_from == Some(log_from),
    {
        Log::make(None, AttrMap::new(), Some(log_from))
    }

    fn make(parent: Option<Log>, attrs: AttrMap, log_from: Option<Level>) -> (r: Log)
        ensures
            r.frames()[0].attrs == attrs@,
            r.frames()[0].log_from == log_from,
            r.frames().drop_first() == match parent {
                Some(p) => p.frames(),
                None => Seq::<FrameV>::empty(),
            },
    {
        let frame = Arc::new(Frame { parent, attrs, log_from });
        let id = frame_address(&frame);
        let r = Log { id, frame };
        proof {
            reveal_with_fuel(Log::frames, 1);
            assert(r.frames().drop_first() =~= match parent {
                Some(p) => p.frames(),
                None => Seq::<FrameV>::empty(),
            });
        }
        r
    }

    /// A new frame below this one, with the attributes that `attrs` inserts into
    /// an empty map and this frame's minimum level. This frame is left as it is.
    pub fn fork<F: FnOnce(AttrMap) -> AttrMap>(&self, attrs: F) -> (r: Log)
        requires
            takes_empty(attrs),
        ensures
            configures(attrs, r.frames()[0].attrs),
            r.frames()[0].log_from == self.min_level(),
            r.frames().drop_first() == self.frames(),
    {
        let new_attrs = AttrMap::configured(attrs);
        proof {
            reveal_with_fuel(Log::frames, 1);
        }
        Log::make(Some(self.clone()), new_attrs, self.frame.log_from)
    }

    /// Like `fork`, and the new frame's minimum level is raised to `log_from` if it
    /// is lower. A chain that does not log still does not.
    pub fn fork_with_log_from<F: FnOnce(AttrMap) -> AttrMap>(&self, log_from: Level, attrs: F) -> (r: Log)
        requires
            takes_empty(attrs),
        ensures
            configures(attrs, r.frames()[0].attrs),
            r.min_level() == raised(self.min_level(), log_from),
            r.frames().drop_first() == self.frames(),
    {
        let new_attrs = AttrMap::configured(attrs);
        let level = match self.frame.log_from {
            Some(m) => Some(m.higher(log_from)),
            None => None,
        };
        proof {
            reveal_with_fuel(Log::frames, 1);
        }
        Log::make(Some(self.clone()), new_attrs, level)
    }

    /// `Some(level)` when a message at `level` is emitted through this chain: the
    /// chain has a minimum level and `level` is at or above it.
    pub fn should_log(&self, level: Level) -> (r: Option<Level>)
        ensures
            r == if self.emits(level) {
                Some(level)
            } else {
                None::<Level>
            },
    {
        proof {
            reveal_with_fuel(Log::frames, 1);
        }
        match self.frame.log_from {
            None => None,
            Some(m) => {
                if level.at_least(&m) {
                    Some(level)
                } else {
                    None
                }
            },
        }
    }

    /// The identity of this frame.
    pub fn id(&self) -> (r: usize)
        ensures
            r == self.frames()[0].id,
    {
        proof {
            reveal_with_fuel(Log::frames, 1);
        }
        self.id
    }

    /// The attributes added by this frame alone.
    pub fn own_attrs(&self) -> (r: &AttrMap)
        ensures
            r@ == self.frames()[0].attrs,
    {
        proof {
            reveal_with_fuel(Log::frames, 1);
        }
        &self.frame.attrs
    }

    /// The frame this one was forked from, if any.
    pub fn parent(&self) -> (r: Option<&Log>)
        ensures
            self.frames().len() == 1 ==> r.is_none(),
            self.frames().len() > 1 ==> r.is_some() && r.unwrap().frames() == self.frames().drop_first(),
    {
        proof {
            reveal_with_fuel(Log::frames, 1);
            Log::lemma_every_chain_nonempty();
            assert(self.frame.parent is Some ==> self.frame.parent.unwrap().frames().len() >= 1);
        }
        match &self.frame.parent {
            Some(p) => Some(p),
            None => None,
        }
    }
}

impl Default for Log {
    /// A root frame that gathers attributes and never logs, as `Log::new`.
    fn default() -> (r: Log)
        ensures
            r.frames().len() == 1,
            r.frames()[0].attrs.len() == 0,
            r.frames()[0].log_from == None::<Level>,
    {
        Log::new()
    }
}

impl Clone for Log {
    /// Another handle to the same frame.
    fn clone(&self) -> (r: Log)
        ensures
            r == *self,
    {
        Log { id: self.id, frame: share_frame(&self.frame) }
    }
}

} // verus!

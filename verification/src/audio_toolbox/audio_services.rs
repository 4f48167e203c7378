//! `AudioServices`: the table of system sounds an app has created, their
//! completion routines, and when those are due.
//!
//! Playing, stopping and asking whether a sound still plays are the audio
//! library's work; this decides which sound each of those is about, and
//! which completion routines are to be called.

use std::collections::HashMap;
use vstd::prelude::*;
use vstd::std_specs::iter::IteratorSpec;

verus! {

broadcast use vstd::std_specs::hash::group_hash_axioms;

/// `SystemSoundID`.
pub type SystemSoundID = u32;

/// `OSStatus`.
pub type OSStatus = i32;

/// An OpenAL source or buffer name.
pub type ALuint = u32;

/// The "sound" that makes the device vibrate.
pub const K_SYSTEM_SOUND_ID_VIBRATE: SystemSoundID = 0x00000FFF;

/// `kAudioServicesSystemSoundUnspecifiedError`.
pub const K_AUDIO_SERVICES_SYSTEM_SOUND_UNSPECIFIED_ERROR: OSStatus = -1500;

/// The first ID handed out.
pub const INITIAL_SYSTEM_SOUND_ID: SystemSoundID = 0x1001;

/// A completion routine registered for a sound.
#[derive(Clone, Copy, Debug, PartialEq, Eq, Structural)]
pub struct SystemSoundCompletion {
    /// The guest function to call.
    pub routine: u32,
    /// The guest pointer passed to it.
    pub client_data: u32,
    /// Whether the source was playing the last time the run loop looked. The
    /// completion fires on the playing-to-stopped edge, so a sound that was
    /// never started does not immediately call back.
    pub was_playing: bool,
}

/// A system sound: its OpenAL source and buffer, and its completion routine.
#[derive(Clone, Copy, Debug, PartialEq, Eq)]
pub struct SystemSoundData {
    pub al_source: ALuint,
    pub al_buffer: ALuint,
    pub completion: Option<SystemSoundCompletion>,
}

/// The system sounds, and the next ID to hand out.
#[derive(Debug)]
pub struct State {
    sounds: HashMap<SystemSoundID, SystemSoundData>,
    data_top: SystemSoundID,
}

/// Every ID in the table is below the next to be handed out.
pub open spec fn table_wf(sounds: Map<SystemSoundID, SystemSoundData>, top: SystemSoundID) -> bool {
    forall|id: SystemSoundID| #[trigger] sounds.contains_key(id) ==> id < top
}

/// The completion calls due, in the order the sounds are looked at, where
/// `before` and `after` are the table before and after a look at which
/// sources still play: a sound whose source was playing and is no longer.
pub open spec fn due(
    order: Seq<SystemSoundID>,
    before: Map<SystemSoundID, SystemSoundData>,
    after: Map<SystemSoundID, SystemSoundData>,
    n: int,
) -> Seq<(SystemSoundID, u32, u32)>
    decreases n,
{
    if n <= 0 {
        Seq::empty()
    } else {
        let rest = due(order, before, after, n - 1);
        let id = order[n - 1];
        match (before[id].completion, after[id].completion) {
            (Some(c), Some(d)) => if c.was_playing && !d.was_playing {
                rest.push((id, c.routine, c.client_data))
            } else {
                rest
            },
            _ => rest,
        }
    }
}

/// The sound `id` with completion `c`.
pub open spec fn with_completion(d: SystemSoundData, c: Option<SystemSoundCompletion>) -> SystemSoundData {
    SystemSoundData { completion: c, ..d }
}

/// What a look at the sound `d` leaves of it, `d2`, having asked
/// `is_playing` about its source: the same source and buffer, and its
/// completion routine, if any, with whether the source plays now.
pub open spec fn looked_at<F: Fn(ALuint) -> bool>(is_playing: F, d: SystemSoundData, d2: SystemSoundData) -> bool {
    &&& d2.al_source == d.al_source
    &&& d2.al_buffer == d.al_buffer
    &&& match (d.completion, d2.completion) {
        (Some(c), Some(c2)) => c2.routine == c.routine && c2.client_data == c.client_data
            && call_ensures(is_playing, (d.al_source,), c2.was_playing),
        (None, None) => true,
        _ => false,
    }
}

impl State {
    pub closed spec fn sounds(&self) -> Map<SystemSoundID, SystemSoundData> {
        self.sounds@
    }

    pub closed spec fn next_id(&self) -> SystemSoundID {
        self.data_top
    }

    /// No sounds, and the first ID ready.
    pub fn new() -> (r: State)
        ensures
            r.sounds() == Map::<SystemSoundID, SystemSoundData>::empty(),
            r.next_id() == INITIAL_SYSTEM_SOUND_ID,
            table_wf(r.sounds(), r.next_id()),
    {
        State { sounds: HashMap::new(), data_top: INITIAL_SYSTEM_SOUND_ID }
    }

    /// Record a new sound playing from `al_source` with `al_buffer`, under
    /// the next ID, and hand that ID out.
    pub fn create_sound(&mut self, al_source: ALuint, al_buffer: ALuint) -> (r: SystemSoundID)
        requires
            table_wf(old(self).sounds(), old(self).next_id()),
            old(self).next_id() < u32::MAX,
        ensures
            r == old(self).next_id(),
            !old(self).sounds().contains_key(r),
            final(self).sounds() == old(self).sounds().insert(r, fresh_sound(al_source, al_buffer)),
            final(self).next_id() == old(self).next_id() + 1,
            table_wf(final(self).sounds(), final(self).next_id()),
    {
        let id = self.data_top;
        self.sounds.insert(id, SystemSoundData { al_source, al_buffer, completion: None });
        self.data_top = id + 1;
        id
    }

    /// The source of the sound `id`, to play: none for an ID never handed
    /// out or already disposed, which plays nothing.
    pub fn source_of(&self, id: SystemSoundID) -> (r: Option<ALuint>)
        ensures
            r == if self.sounds().contains_key(id) {
                Some(self.sounds()[id].al_source)
            } else {
                None
            },
    {
        match self.sounds.get(&id) {
            Some(d) => Some(d.al_source),
            None => None,
        }
    }

    /// Forget the sound `id`, handing back its source and buffer to delete;
    /// an ID that names no sound is an error.
    pub fn dispose(&mut self, id: SystemSoundID) -> (r: Result<(ALuint, ALuint), OSStatus>)
        requires
            table_wf(old(self).sounds(), old(self).next_id()),
        ensures
            final(self).next_id() == old(self).next_id(),
            table_wf(final(self).sounds(), final(self).next_id()),
            final(self).sounds() == old(self).sounds().remove(id),
            r == if old(self).sounds().contains_key(id) {
                Ok::<(ALuint, ALuint), OSStatus>(
                    (old(self).sounds()[id].al_source, old(self).sounds()[id].al_buffer),
                )
            } else {
                Err::<(ALuint, ALuint), OSStatus>(K_AUDIO_SERVICES_SYSTEM_SOUND_UNSPECIFIED_ERROR)
            },
    {
        match self.sounds.remove(&id) {
            Some(data) => Ok((data.al_source, data.al_buffer)),
            None => {
                assert(self.sounds@ =~= old(self).sounds@.remove(id));
                Err(K_AUDIO_SERVICES_SYSTEM_SOUND_UNSPECIFIED_ERROR)
            },
        }
    }

    /// Register `routine` with `client_data` to run once the sound `id`
    /// finishes playing, replacing any before it. An ID that names no sound
    /// (the vibration "sound" among them) is an error.
    pub fn add_completion(&mut self, id: SystemSoundID, routine: u32, client_data: u32) -> (r: OSStatus)
        requires
            table_wf(old(self).sounds(), old(self).next_id()),
        ensures
            final(self).next_id() == old(self).next_id(),
            table_wf(final(self).sounds(), final(self).next_id()),
            old(self).sounds().contains_key(id) ==> r == 0 && final(self).sounds()
                == old(self).sounds().insert(
                id,
                with_completion(
                    old(self).sounds()[id],
                    Some(SystemSoundCompletion { routine, client_data, was_playing: false }),
                ),
            ),
            !old(self).sounds().contains_key(id) ==> r == K_AUDIO_SERVICES_SYSTEM_SOUND_UNSPECIFIED_ERROR
                && final(self).sounds() == old(self).sounds(),
    {
        let data = match self.sounds.get(&id) {
            Some(d) => *d,
            None => return K_AUDIO_SERVICES_SYSTEM_SOUND_UNSPECIFIED_ERROR,
        };
        let updated = SystemSoundData {
            completion: Some(SystemSoundCompletion { routine, client_data, was_playing: false }),
            ..data
        };
        self.sounds.insert(id, updated);
        0
    }

    /// Remove the completion routine of the sound `id`, if it names one.
    pub fn remove_completion(&mut self, id: SystemSoundID)
        requires
            table_wf(old(self).sounds(), old(self).next_id()),
        ensures
            final(self).next_id() == old(self).next_id(),
            table_wf(final(self).sounds(), final(self).next_id()),
            old(self).sounds().contains_key(id) ==> final(self).sounds() == old(self).sounds().insert(
                id,
                with_completion(old(self).sounds()[id], None),
            ),
            !old(self).sounds().contains_key(id) ==> final(self).sounds() == old(self).sounds(),
    {
        let data = match self.sounds.get(&id) {
            Some(d) => *d,
            None => return ,
        };
        self.sounds.insert(id, SystemSoundData { completion: None, ..data });
    }

    /// The IDs of the sounds, each once, in the order the table hands them
    /// out.
    fn ids(&self) -> (r: Vec<SystemSoundID>)
        ensures
            r@.to_set() == self.sounds().dom(),
            r@.no_duplicates(),
    {
        let ghost s = vstd::std_specs::hash::spec_keys_iter(&self.sounds).remaining();
        let mut ids: Vec<SystemSoundID> = Vec::new();
        for id in it: self.sounds.keys()
            invariant
                it.seq() == s,
                ids@ == s.take(it.index() as int).map_values(|r: &SystemSoundID| *r),
        {
            ids.push(*id);
            assert(s.take(it.index() + 1 as int).map_values(|r: &SystemSoundID| *r) =~= ids@);
        }
        assert(ids@ =~= s.map_values(|r: &SystemSoundID| *r));
        assert(s.unref() =~= s.map_values(|r: &SystemSoundID| *r));
        ids
    }

    /// Look at every sound with a completion routine, asking `is_playing`
    /// whether its source still plays, and hand back the routines now due:
    /// those of sounds that were playing at the last look and are not now,
    /// with the sound's ID and the routine's client data. The sounds are
    /// looked at in the order the table hands them out, which it does not
    /// promise.
    pub fn take_due_completions<F: Fn(ALuint) -> bool>(&mut self, is_playing: F) -> (r: Vec<(SystemSoundID, u32, u32)>)
        requires
            forall|s: ALuint| call_requires(is_playing, (s,)),
        ensures
            final(self).next_id() == old(self).next_id(),
            final(self).sounds().dom() == old(self).sounds().dom(),
            forall|id: SystemSoundID|
                #[trigger] old(self).sounds().contains_key(id) ==> looked_at(
                    is_playing,
                    old(self).sounds()[id],
                    final(self).sounds()[id],
                ),
            exists|order: Seq<SystemSoundID>|
                order.no_duplicates() && order.to_set() == old(self).sounds().dom() && r@ == due(
                    order,
                    old(self).sounds(),
                    final(self).sounds(),
                    order.len() as int,
                ),
    {
        let ids = self.ids();
        let ghost before = self.sounds@;
        let ghost top = self.data_top;
        let mut r: Vec<(SystemSoundID, u32, u32)> = Vec::new();
        let mut i: usize = 0;
        while i < ids.len()
            invariant
                forall|s: ALuint| call_requires(is_playing, (s,)),
                self.data_top == top,
                ids@.to_set() == before.dom(),
                ids@.no_duplicates(),
                i <= ids@.len(),
                self.sounds@.dom() == before.dom(),
                forall|k: int| i <= k < ids@.len() ==> self.sounds@[#[trigger] ids@[k]] == before[ids@[k]],
                forall|k: int|
                    0 <= k < i ==> looked_at(is_playing, before[#[trigger] ids@[k]], self.sounds@[ids@[k]]),
                r@ == due(ids@, before, self.sounds@, i as int),
            decreases ids@.len() - i,
        {
            let id = ids[i];
            assert(ids@.to_set().contains(id));
            let data = match self.sounds.get(&id) {
                Some(d) => *d,
                None => {
                    assert(false);
                    return r;
                },
            };
            match data.completion {
                Some(c) => {
                    let playing = is_playing(data.al_source);
                    if c.was_playing && !playing {
                        r.push((id, c.routine, c.client_data));
                    }
                    let updated = SystemSoundData {
                        completion: Some(SystemSoundCompletion { was_playing: playing, ..c }),
                        ..data
                    };
                    let ghost mid = self.sounds@;
                    self.sounds.insert(id, updated);
                    proof {
                        assert forall|k: int| 0 <= k < i implies #[trigger] ids@[k] != id by {
                            assert(ids@[k] != ids@[i as int]);
                        }
                        lemma_due_prefix(ids@, before, mid, self.sounds@, i as int);
                        assert forall|k: int| i < k < ids@.len() implies self.sounds@[#[trigger] ids@[k]]
                            == before[ids@[k]] by {
                            assert(ids@[k] != ids@[i as int]);
                        }
                        assert forall|k: int| 0 <= k < i implies looked_at(
                            is_playing,
                            before[#[trigger] ids@[k]],
                            self.sounds@[ids@[k]],
                        ) by {
                            assert(ids@[k] != ids@[i as int]);
                        }
                    }
                },
                None => {},
            }
            i = i + 1;
        }
        proof {
            assert forall|id: SystemSoundID| #[trigger] before.contains_key(id) implies looked_at(
                is_playing,
                before[id],
                self.sounds@[id],
            ) by {
                assert(ids@.to_set().contains(id));
                let k = choose|k: int| 0 <= k < ids@.len() && ids@[k] == id;
                assert(looked_at(is_playing, before[ids@[k]], self.sounds@[ids@[k]]));
            }
            assert(ids@.len() == i);
        }
        r
    }
}

/// The completions due among the first `n` sounds of `order` depend on the
/// table after the look only at those sounds.
proof fn lemma_due_prefix(
    order: Seq<SystemSoundID>,
    before: Map<SystemSoundID, SystemSoundData>,
    a: Map<SystemSoundID, SystemSoundData>,
    b: Map<SystemSoundID, SystemSoundData>,
    n: int,
)
    requires
        0 <= n <= order.len(),
        forall|k: int| 0 <= k < n ==> a[#[trigger] order[k]] == b[order[k]],
    ensures
        due(order, before, a, n) == due(order, before, b, n),
    decreases n,
{
    if n > 0 {
        lemma_due_prefix(order, before, a, b, n - 1);
    }
}

/// A sound as it is created: its source and buffer, and no completion.
pub open spec fn fresh_sound(al_source: ALuint, al_buffer: ALuint) -> SystemSoundData {
    SystemSoundData { al_source, al_buffer, completion: None }
}

/// A sound just created is found under the ID it was given, with its source
/// and buffer and no completion routine, and disposing of it forgets it.
pub proof fn lemma_created_sound_is_found_until_disposed(
    sounds: Map<SystemSoundID, SystemSoundData>,
    top: SystemSoundID,
    al_source: ALuint,
    al_buffer: ALuint,
)
    requires
        table_wf(sounds, top),
    ensures
        !sounds.contains_key(top),
        sounds.insert(top, fresh_sound(al_source, al_buffer)).contains_key(top),
        sounds.insert(top, fresh_sound(al_source, al_buffer))[top] == fresh_sound(al_source, al_buffer),
        !sounds.insert(top, fresh_sound(al_source, al_buffer)).remove(top).contains_key(top),
        sounds.insert(top, fresh_sound(al_source, al_buffer)).remove(top) == sounds,
{
    assert(sounds.insert(top, fresh_sound(al_source, al_buffer)).remove(top) =~= sounds);
}

} // verus!

//! The multi-channel model: named channels supply parallel sample sequences
//! per transform identifier, and queries resolve them by channel priority.

use vstd::prelude::*;
use crate::channel_info::{ChannelId, ChannelInfo};
use crate::error::Error;
use crate::frames::{FrameId, FrameInfo};
use crate::interpolation::{strictly_sorted, times_wf};
use crate::time::Time;
use crate::transform::{TimedTransform, TransformId};

verus! {

/// One channel's sample sequence for one transform identifier.
#[derive(Debug)]
pub struct ChannelTransforms {
    pub channel_id: ChannelId,
    pub transform_id: TransformId,
    pub transforms: Vec<TimedTransform>,
}

/// The spec-level value of a channel entry.
pub struct ChannelTransformsView {
    pub channel_id: Seq<char>,
    pub transform_id: (Seq<char>, Seq<char>),
    pub transforms: Seq<TimedTransform>,
}

impl View for ChannelTransforms {
    type V = ChannelTransformsView;

    open spec fn view(&self) -> ChannelTransformsView {
        ChannelTransformsView {
            channel_id: self.channel_id@,
            transform_id: self.transform_id@,
            transforms: self.transforms@,
        }
    }
}

impl Clone for ChannelTransforms {
    fn clone(&self) -> (r: ChannelTransforms)
        ensures
            r@ == self@,
    {
        ChannelTransforms {
            channel_id: self.channel_id.clone(),
            transform_id: self.transform_id.clone(),
            transforms: self.transforms.clone(),
        }
    }
}

impl ChannelTransforms {
    /// Well-formed: a valid identifier and a strictly time-ascending sequence.
    pub open spec fn wf(self) -> bool {
        &&& self.transform_id.wf()
        &&& times_wf(self.transforms@)
        &&& strictly_sorted(self.transforms@)
    }

    /// The entry's key: channel and transform identifier.
    pub open spec fn key(self) -> (Seq<char>, (Seq<char>, Seq<char>)) {
        (self.channel_id@, self.transform_id@)
    }
}

/// A list of transforms representing coordinate frames across channels.
#[derive(Debug)]
pub struct ReferenceFrames {
    pub transforms: Vec<ChannelTransforms>,
    pub frame_info: Vec<FrameInfo>,
    pub channel_info: Vec<(ChannelId, ChannelInfo)>,
    pub transform_info: Vec<(TransformId, crate::transform_info::TransformInfo)>,
}

/// Whether an entry with the given key is present.
pub open spec fn has_key(
    ts: Seq<ChannelTransforms>,
    key: (Seq<char>, (Seq<char>, Seq<char>)),
) -> bool {
    exists|i: int| 0 <= i < ts.len() && (#[trigger] ts[i]).key() == key
}

/// The position of the entry with the given key.
pub open spec fn key_index(
    ts: Seq<ChannelTransforms>,
    key: (Seq<char>, (Seq<char>, Seq<char>)),
) -> int {
    choose|i: int| 0 <= i < ts.len() && (#[trigger] ts[i]).key() == key
}

/// The samples of the entry with the given key.
pub open spec fn samples_of(
    ts: Seq<ChannelTransforms>,
    key: (Seq<char>, (Seq<char>, Seq<char>)),
) -> Seq<TimedTransform> {
    ts[key_index(ts, key)].transforms@
}

/// Whether some channel supplies the given transform identifier.
pub open spec fn channel_supplies(
    ts: Seq<ChannelTransforms>,
    c: Seq<char>,
    t: (Seq<char>, Seq<char>),
) -> bool {
    has_key(ts, (c, t))
}

/// The entry at a known position is the one its key selects.
pub proof fn lemma_key_index(ts: Seq<ChannelTransforms>, i: int)
    requires
        forall|a: int, b: int| 0 <= a < b < ts.len() ==> (#[trigger] ts[a]).key() != (
        #[trigger] ts[b]).key(),
        0 <= i < ts.len(),
    ensures
        key_index(ts, ts[i].key()) == i,
        has_key(ts, ts[i].key()),
{
    assert(has_key(ts, ts[i].key()));
    let j = key_index(ts, ts[i].key());
    if i != j {
        assert(false);
    }
}

impl ReferenceFrames {
    /// Well-formed: valid entries under distinct keys, and distinct metadata
    /// keys.
    pub open spec fn wf(self) -> bool {
        &&& forall|i: int| 0 <= i < self.transforms@.len() ==> (#[trigger] self.transforms@[
            i
        ]).wf()
        &&& forall|a: int, b: int|
            0 <= a < b < self.transforms@.len() ==> (#[trigger] self.transforms@[a]).key() != (
            #[trigger] self.transforms@[b]).key()
        &&& forall|a: int, b: int|
            0 <= a < b < self.frame_info@.len() ==> (#[trigger] self.frame_info@[a]).id@ != (
            #[trigger] self.frame_info@[b]).id@
        &&& forall|a: int, b: int|
            0 <= a < b < self.channel_info@.len() ==> (#[trigger] self.channel_info@[a]).0@ != (
            #[trigger] self.channel_info@[b]).0@
        &&& forall|a: int, b: int|
            0 <= a < b < self.transform_info@.len() ==> (#[trigger] self.transform_info@[a]).0@
                != (#[trigger] self.transform_info@[b]).0@
    }

    /// Builds the model. Every entry's samples must already be strictly
    /// ascending in time; an unsorted entry is rejected.
    pub fn new(
        transforms: Vec<ChannelTransforms>,
        frame_info: Vec<FrameInfo>,
        channel_info: Vec<(ChannelId, ChannelInfo)>,
        transform_info: Vec<(TransformId, crate::transform_info::TransformInfo)>,
    ) -> (r: Result<ReferenceFrames, Error>)
        requires
            forall|i: int| 0 <= i < transforms@.len() ==> (#[trigger] transforms@[
                i
            ]).transform_id.wf() && times_wf(transforms@[i].transforms@),
            forall|a: int, b: int| 0 <= a < b < transforms@.len() ==> (#[trigger] transforms@[
                a
            ]).key() != (#[trigger] transforms@[b]).key(),
            forall|a: int, b: int| 0 <= a < b < frame_info@.len() ==> (#[trigger] frame_info@[
                a
            ]).id@ != (#[trigger] frame_info@[b]).id@,
            forall|a: int, b: int| 0 <= a < b < channel_info@.len() ==> (#[trigger] channel_info@[
                a
            ]).0@ != (#[trigger] channel_info@[b]).0@,
            forall|a: int, b: int|
                0 <= a < b < transform_info@.len() ==> (#[trigger] transform_info@[a]).0@ != (
                #[trigger] transform_info@[b]).0@,
        ensures
            r matches Ok(rf) ==> {
                &&& rf.wf()
                &&& rf.transforms == transforms
                &&& rf.frame_info == frame_info
                &&& rf.channel_info == channel_info
                &&& rf.transform_info == transform_info
            },
            r is Ok <==> forall|i: int| 0 <= i < transforms@.len() ==> strictly_sorted(
                (#[trigger] transforms@[i]).transforms@,
            ),
            r matches Err(e) ==> e matches Error::TransformsNotSorted { transform_id } && exists|
                i: int,
            |
                0 <= i < transforms@.len() && !strictly_sorted(
                    (#[trigger] transforms@[i]).transforms@,
                ) && transform_id@ == transforms@[i].transform_id@,
    {
        let mut i: usize = 0;
        while i < transforms.len()
            invariant
                0 <= i <= transforms@.len(),
                forall|k: int| 0 <= k < transforms@.len() ==> (#[trigger] transforms@[
                    k
                ]).transform_id.wf() && times_wf(transforms@[k].transforms@),
                forall|k: int| 0 <= k < i ==> strictly_sorted(
                    (#[trigger] transforms@[k]).transforms@,
                ),
            decreases transforms@.len() - i,
        {
            let entry = &transforms[i];
            let mut k: usize = 0;
            let n = entry.transforms.len();
            while n > 0 && k < n - 1
                invariant
                    0 <= k < n || n == 0,
                    n == entry.transforms@.len(),
                    entry == &transforms@[i as int],
                    0 <= i < transforms@.len(),
                    forall|k2: int| 0 <= k2 < transforms@.len() ==> (#[trigger] transforms@[
                        k2
                    ]).transform_id.wf() && times_wf(transforms@[k2].transforms@),
                    forall|m: int| 0 <= m < k ==> (#[trigger] entry.transforms@[
                        m
                    ]).timestamp.as_nanos() < entry.transforms@[m + 1].timestamp.as_nanos(),
                decreases n - k,
            {
                if !entry.transforms[k].timestamp.lt(&entry.transforms[k + 1].timestamp) {
                    proof {
                        assert(!strictly_sorted(transforms@[i as int].transforms@));
                    }
                    return Err(
                        Error::TransformsNotSorted { transform_id: entry.transform_id.clone() },
                    );
                }
                k = k + 1;
            }
            proof {
                assert forall|a: int, b: int|
                    0 <= a < b < entry.transforms@.len() implies (#[trigger] entry.transforms@[
                    a
                ]).timestamp.as_nanos() < (#[trigger] entry.transforms@[
                    b
                ]).timestamp.as_nanos() by {
                    lemma_adjacent_implies_sorted(entry.transforms@, a, b);
                }
            }
            i = i + 1;
        }
        Ok(ReferenceFrames { transforms, frame_info, channel_info, transform_info })
    }

    /// Whether the model holds no transform entry.
    pub fn is_empty(&self) -> (r: bool)
        ensures
            r == (self.transforms@.len() == 0),
    {
        self.transforms.len() == 0
    }

    /// The transform entries.
    pub fn transforms(&self) -> (r: &Vec<ChannelTransforms>)
        ensures
            r == &self.transforms,
    {
        &self.transforms
    }

    /// The frame metadata.
    pub fn frame_info(&self) -> (r: &Vec<FrameInfo>)
        ensures
            r == &self.frame_info,
    {
        &self.frame_info
    }

    /// The channel metadata.
    pub fn channel_info(&self) -> (r: &Vec<(ChannelId, ChannelInfo)>)
        ensures
            r == &self.channel_info,
    {
        &self.channel_info
    }

    /// The per-transform policies.
    pub fn transform_info(&self) -> (r: &Vec<(TransformId, crate::transform_info::TransformInfo)>)
        ensures
            r == &self.transform_info,
    {
        &self.transform_info
    }

    /// The channels that supply some transform, without repetition.
    #[verifier::loop_isolation(false)]
    pub fn get_channel_ids(&self) -> (r: Vec<ChannelId>)
        ensures
            forall|v: Seq<char>|
                #![trigger contains_channel_view(r@, v)]
                contains_channel_view(r@, v) <==> exists|i: int|
                    0 <= i < self.transforms@.len() && (#[trigger] self.transforms@[
                        i
                    ]).channel_id@ == v,
            forall|a: int, b: int| 0 <= a < b < r@.len() ==> (#[trigger] r@[a])@ != (
            #[trigger] r@[b])@,
    {
        let mut out: Vec<ChannelId> = Vec::new();
        let mut i: usize = 0;
        while i < self.transforms.len()
            invariant
                0 <= i <= self.transforms@.len(),
                forall|v: Seq<char>|
                    #![trigger contains_channel_view(out@, v)]
                    contains_channel_view(out@, v) <==> exists|k: int|
                        0 <= k < i && (#[trigger] self.transforms@[k]).channel_id@ == v,
                forall|a: int, b: int| 0 <= a < b < out@.len() ==> (#[trigger] out@[a])@ != (
                #[trigger] out@[b])@,
            decreases self.transforms@.len() - i,
        {
            let c = &self.transforms[i].channel_id;
            let mut seen = false;
            let mut j: usize = 0;
            while j < out.len()
                invariant
                    0 <= j <= out@.len(),
                    !seen ==> forall|m: int| 0 <= m < j ==> (#[trigger] out@[m])@ != c@,
                    seen ==> contains_channel_view(out@, c@),
                decreases out@.len() - j + if seen {
                    0int
                } else {
                    1int
                },
            {
                if seen {
                    j = out.len();
                } else if &out[j] == c {
                    seen = true;
                } else {
                    j = j + 1;
                }
            }
            let ghost old_out = out@;
            if !seen {
                out.push(c.clone());
            }
            proof {
                assert forall|v: Seq<char>| #[trigger] contains_channel_view(out@, v) implies (
                contains_channel_view(old_out, v) || self.transforms@[i as int].channel_id@
                    == v) by {
                    let m = choose|m: int| 0 <= m < out@.len() && (#[trigger] out@[m])@ == v;
                    if m < old_out.len() {
                        assert(old_out[m]@ == v);
                    }
                }
                assert forall|v: Seq<char>|
                    contains_channel_view(old_out, v) implies contains_channel_view(out@, v) by {
                    let m = choose|m: int| 0 <= m < old_out.len() && (#[trigger] old_out[m])@
                        == v;
                    assert(out@[m]@ == v);
                }
                if !seen {
                    assert(out@[out@.len() - 1]@ == self.transforms@[i as int].channel_id@);
                }
                assert forall|v: Seq<char>| #[trigger] contains_channel_view(out@, v) implies
                    exists|k: int| 0 <= k < i + 1 && (#[trigger] self.transforms@[k]).channel_id@
                    == v by {
                    if contains_channel_view(old_out, v) {
                        let k = choose|k: int|
                            0 <= k < i && (#[trigger] self.transforms@[k]).channel_id@ == v;
                    } else {
                        assert(self.transforms@[i as int].channel_id@ == v);
                    }
                }
                assert forall|v: Seq<char>|
                    (exists|k: int|
                        0 <= k < i + 1 && (#[trigger] self.transforms@[k]).channel_id@
                            == v) implies #[trigger] contains_channel_view(out@, v) by {
                    let k = choose|k: int|
                        0 <= k < i + 1 && (#[trigger] self.transforms@[k]).channel_id@ == v;
                    if k < i {
                        assert(contains_channel_view(old_out, v));
                    } else {
                        if seen {
                            assert(contains_channel_view(old_out, v));
                        }
                    }
                }
            }
            i = i + 1;
        }
        out
    }

    /// Whether the channel supplies some transform.
    pub fn contains_channel(&self, channel_id: &ChannelId) -> (r: bool)
        ensures
            r == exists|i: int|
                0 <= i < self.transforms@.len() && (#[trigger] self.transforms@[i]).channel_id@
                    == channel_id@,
    {
        let mut i: usize = 0;
        while i < self.transforms.len()
            invariant
                0 <= i <= self.transforms@.len(),
                forall|k: int| 0 <= k < i ==> (#[trigger] self.transforms@[k]).channel_id@
                    != channel_id@,
            decreases self.transforms@.len() - i,
        {
            if &self.transforms[i].channel_id == channel_id {
                return true;
            }
            i = i + 1;
        }
        false
    }

    /// Whether the frame occurs as an endpoint of some transform entry.
    pub fn contains_frame(&self, frame_id: &FrameId) -> (r: bool)
        ensures
            r == exists|i: int|
                0 <= i < self.transforms@.len() && ((#[trigger] self.transforms@[
                    i
                ]).transform_id@.0 == frame_id@ || self.transforms@[i].transform_id@.1
                    == frame_id@),
    {
        let mut i: usize = 0;
        while i < self.transforms.len()
            invariant
                0 <= i <= self.transforms@.len(),
                forall|k: int| 0 <= k < i ==> (#[trigger] self.transforms@[k]).transform_id@.0
                    != frame_id@ && self.transforms@[k].transform_id@.1 != frame_id@,
            decreases self.transforms@.len() - i,
        {
            let t = &self.transforms[i].transform_id;
            if &t.parent_frame_id == frame_id || &t.child_frame_id == frame_id {
                return true;
            }
            i = i + 1;
        }
        false
    }

    /// The position of the entry with the given channel and transform
    /// identifier.
    fn find_entry(&self, channel_id: &ChannelId, transform_id: &TransformId) -> (r: Option<usize>)
        ensures
            r matches Some(i) ==> i < self.transforms@.len() && self.transforms@[i as int].key()
                == (channel_id@, transform_id@),
            r is None ==> !has_key(self.transforms@, (channel_id@, transform_id@)),
    {
        let mut i: usize = 0;
        while i < self.transforms.len()
            invariant
                0 <= i <= self.transforms@.len(),
                forall|k: int| 0 <= k < i ==> (#[trigger] self.transforms@[k]).key() != (
                    channel_id@,
                    transform_id@,
                ),
            decreases self.transforms@.len() - i,
        {
            let e = &self.transforms[i];
            if &e.channel_id == channel_id && &e.transform_id == transform_id {
                return Some(i);
            }
            i = i + 1;
        }
        None
    }

    /// Whether the channel supplies the given transform identifier.
    pub fn contains_transform(&self, channel_id: &ChannelId, transform_id: &TransformId) -> (r:
        bool)
        ensures
            r == has_key(self.transforms@, (channel_id@, transform_id@)),
    {
        match self.find_entry(channel_id, transform_id) {
            Some(i) => {
                proof {
                    assert(self.transforms@[i as int].key() == (channel_id@, transform_id@));
                }
                true
            },
            None => false,
        }
    }

    /// The samples one channel supplies for one transform identifier.
    pub fn get_transforms_of_channel(
        &self,
        channel_id: &ChannelId,
        transform_id: &TransformId,
    ) -> (r: Result<&Vec<TimedTransform>, Error>)
        requires
            self.wf(),
        ensures
            r matches Ok(v) ==> has_key(self.transforms@, (channel_id@, transform_id@)) && v@
                == samples_of(self.transforms@, (channel_id@, transform_id@)),
            r is Err <==> !has_key(self.transforms@, (channel_id@, transform_id@)),
            r matches Err(e) ==> e matches Error::NoTransforms(),
    {
        match self.find_entry(channel_id, transform_id) {
            Some(i) => {
                proof {
                    lemma_key_index(self.transforms@, i as int);
                }
                Ok(&self.transforms[i].transforms)
            },
            None => Err(Error::NoTransforms()),
        }
    }

    /// The channel's priority, `0` when none is set. A channel supplying no
    /// transform is invalid.
    pub fn get_channel_priority(&self, channel_id: &ChannelId) -> (r: Result<i32, Error>)
        requires
            self.wf(),
        ensures
            r matches Ok(p) ==> p == spec_priority(self.channel_info@, channel_id@),
            r is Err <==> !exists|i: int|
                0 <= i < self.transforms@.len() && (#[trigger] self.transforms@[i]).channel_id@
                    == channel_id@,
            r matches Err(e) ==> e matches Error::InvalidChannelId(c) && c@ == channel_id@,
    {
        if !self.contains_channel(channel_id) {
            return Err(Error::InvalidChannelId(channel_id.clone()));
        }
        Ok(self.priority_of(channel_id))
    }

    /// The channel's priority from the metadata, `0` when none is set.
    #[verifier::loop_isolation(false)]
    fn priority_of(&self, channel_id: &ChannelId) -> (r: i32)
        requires
            forall|a: int, b: int|
                0 <= a < b < self.channel_info@.len() ==> (#[trigger] self.channel_info@[a]).0@
                    != (#[trigger] self.channel_info@[b]).0@,
        ensures
            r == spec_priority(self.channel_info@, channel_id@),
    {
        let mut i: usize = 0;
        while i < self.channel_info.len()
            invariant
                0 <= i <= self.channel_info@.len(),
                forall|k: int| 0 <= k < i ==> (#[trigger] self.channel_info@[k]).0@ != channel_id@,
            decreases self.channel_info@.len() - i,
        {
            if &self.channel_info[i].0 == channel_id {
                proof {
                    lemma_spec_priority(self.channel_info@, channel_id@, i as int);
                }
                return match self.channel_info[i].1.priority {
                    Some(p) => p,
                    None => 0,
                };
            }
            i = i + 1;
        }
        proof {
            lemma_spec_priority_absent(self.channel_info@, channel_id@);
        }
        0
    }
}

/// Whether some channel identifier in the list carries the given text.
pub open spec fn contains_channel_view(s: Seq<ChannelId>, v: Seq<char>) -> bool {
    exists|i: int| 0 <= i < s.len() && (#[trigger] s[i])@ == v
}

/// The priority the metadata assigns to a channel: the entry's priority when
/// one is set, `0` otherwise.
pub open spec fn spec_priority(info: Seq<(ChannelId, ChannelInfo)>, c: Seq<char>) -> int {
    if exists|i: int| 0 <= i < info.len() && (#[trigger] info[i]).0@ == c {
        let i = choose|i: int| 0 <= i < info.len() && (#[trigger] info[i]).0@ == c;
        match info[i].1.priority {
            Some(p) => p as int,
            None => 0,
        }
    } else {
        0
    }
}

proof fn lemma_spec_priority(info: Seq<(ChannelId, ChannelInfo)>, c: Seq<char>, i: int)
    requires
        forall|a: int, b: int| 0 <= a < b < info.len() ==> (#[trigger] info[a]).0@ != (
        #[trigger] info[b]).0@,
        0 <= i < info.len(),
        info[i].0@ == c,
    ensures
        spec_priority(info, c) == match info[i].1.priority {
            Some(p) => p as int,
            None => 0,
        },
{
    let j = choose|j: int| 0 <= j < info.len() && (#[trigger] info[j]).0@ == c;
    if i != j {
        assert(false);
    }
}

proof fn lemma_spec_priority_absent(info: Seq<(ChannelId, ChannelInfo)>, c: Seq<char>)
    requires
        forall|k: int| 0 <= k < info.len() ==> (#[trigger] info[k]).0@ != c,
    ensures
        spec_priority(info, c) == 0,
{
    if exists|i: int| 0 <= i < info.len() && (#[trigger] info[i]).0@ == c {
        let i = choose|i: int| 0 <= i < info.len() && (#[trigger] info[i]).0@ == c;
        assert(false);
    }
}

/// Strictness carried from neighbours to all pairs.
proof fn lemma_adjacent_implies_sorted(s: Seq<TimedTransform>, i: int, j: int)
    requires
        forall|k: int| 0 <= k < s.len() - 1 ==> (#[trigger] s[k]).timestamp.as_nanos() < s[
            k + 1
        ].timestamp.as_nanos(),
        0 <= i < j < s.len(),
    ensures
        s[i].timestamp.as_nanos() < s[j].timestamp.as_nanos(),
    decreases j - i,
{
    if i + 1 < j {
        lemma_adjacent_implies_sorted(s, i + 1, j);
    }
}

} // verus!

verus! {

/// Lexicographic order on identifier text, by character code.
pub open spec fn lex_le(a: Seq<char>, b: Seq<char>) -> bool
    decreases a.len(),
{
    if a.len() == 0 {
        true
    } else if b.len() == 0 {
        false
    } else if (a[0] as u32) == (b[0] as u32) {
        lex_le(a.drop_first(), b.drop_first())
    } else {
        (a[0] as u32) < (b[0] as u32)
    }
}

/// A shared prefix does not decide the lexicographic order.
proof fn lemma_lex_le_prefix(a: Seq<char>, b: Seq<char>, i: int)
    requires
        0 <= i <= a.len(),
        i <= b.len(),
        forall|k: int| 0 <= k < i ==> (a[k] as u32) == (b[k] as u32),
    ensures
        lex_le(a, b) == lex_le(a.skip(i), b.skip(i)),
    decreases i,
{
    if i > 0 {
        lemma_lex_le_prefix(a, b, i - 1);
        assert(a.skip(i - 1).drop_first() =~= a.skip(i));
        assert(b.skip(i - 1).drop_first() =~= b.skip(i));
        assert(a.skip(i - 1)[0] == a[i - 1]);
        assert(b.skip(i - 1)[0] == b[i - 1]);
        assert(a.skip(i - 1).len() > 0);
        assert(b.skip(i - 1).len() > 0);
        assert(lex_le(a.skip(i - 1), b.skip(i - 1)) == lex_le(
            a.skip(i - 1).drop_first(),
            b.skip(i - 1).drop_first(),
        ));
    } else {
        assert(a.skip(0) =~= a);
        assert(b.skip(0) =~= b);
    }
}

/// Decides the lexicographic order of two identifiers.
#[verifier::loop_isolation(false)]
fn lex_le_channels(a: &ChannelId, b: &ChannelId) -> (r: bool)
    ensures
        r == lex_le(a@, b@),
{
    let sa = a.as_string().as_str();
    let sb = b.as_string().as_str();
    let la = sa.unicode_len();
    let lb = sb.unicode_len();
    let mut i: usize = 0;
    while i < la && i < lb
        invariant
            0 <= i <= la,
            i <= lb,
            la == sa@.len(),
            lb == sb@.len(),
            sa@ == a@,
            sb@ == b@,
            forall|k: int| 0 <= k < i ==> (a@[k] as u32) == (b@[k] as u32),
        decreases la - i,
    {
        let ca = sa.get_char(i);
        let cb = sb.get_char(i);
        if (ca as u32) != (cb as u32) {
            proof {
                lemma_lex_le_prefix(a@, b@, i as int);
                assert(a@.skip(i as int)[0] == a@[i as int]);
                assert(b@.skip(i as int)[0] == b@[i as int]);
            }
            return (ca as u32) < (cb as u32);
        }
        i = i + 1;
    }
    proof {
        lemma_lex_le_prefix(a@, b@, i as int);
        if i < la {
            assert(b@.skip(i as int).len() == 0);
        } else {
            assert(a@.skip(i as int).len() == 0);
        }
    }
    i >= la
}

/// The channel that a query uses for a transform identifier: among the
/// channels supplying it, the one with the highest priority, ties broken
/// towards the lexicographically least identifier.
pub open spec fn is_best_channel(
    rf: ReferenceFrames,
    t: (Seq<char>, Seq<char>),
    c: Seq<char>,
) -> bool {
    &&& channel_supplies(rf.transforms@, c, t)
    &&& forall|c2: Seq<char>|
        #![trigger channel_supplies(rf.transforms@, c2, t)]
        channel_supplies(rf.transforms@, c2, t) ==> spec_priority(rf.channel_info@, c2)
            < spec_priority(rf.channel_info@, c) || (spec_priority(rf.channel_info@, c2)
            == spec_priority(rf.channel_info@, c) && lex_le(c, c2))
}

impl ReferenceFrames {
    /// Picks the channel a query uses for the transform identifier, when any
    /// channel supplies it: the highest priority wins, a tie falling to the
    /// lexicographically least channel identifier.
    #[verifier::loop_isolation(false)]
    pub fn select_channel(&self, transform_id: &TransformId) -> (r: Option<ChannelId>)
        requires
            self.wf(),
        ensures
            r matches Some(c) ==> is_best_channel(*self, transform_id@, c@),
            r is None <==> !exists|c: Seq<char>|
                channel_supplies(self.transforms@, c, transform_id@),
    {
        let mut best: Option<usize> = None;
        let mut i: usize = 0;
        while i < self.transforms.len()
            invariant
                0 <= i <= self.transforms@.len(),
                best matches Some(bi) ==> bi < self.transforms@.len()
                    && self.transforms@[bi as int].transform_id@ == transform_id@,
                best matches Some(bi) ==> forall|k: int|
                    0 <= k < i && (#[trigger] self.transforms@[k]).transform_id@ == transform_id@
                        ==> spec_priority(self.channel_info@, self.transforms@[k].channel_id@)
                        < spec_priority(
                        self.channel_info@,
                        self.transforms@[bi as int].channel_id@,
                    ) || (spec_priority(self.channel_info@, self.transforms@[k].channel_id@)
                        == spec_priority(
                        self.channel_info@,
                        self.transforms@[bi as int].channel_id@,
                    ) && lex_le(
                        self.transforms@[bi as int].channel_id@,
                        self.transforms@[k].channel_id@,
                    )),
                best is None ==> forall|k: int|
                    0 <= k < i ==> (#[trigger] self.transforms@[k]).transform_id@ != transform_id@,
            decreases self.transforms@.len() - i,
        {
            let e = &self.transforms[i];
            if &e.transform_id == transform_id {
                match best {
                    None => {
                        best = Some(i);
                        proof {
                            lemma_lex_refl(self.transforms@[i as int].channel_id@);
                        }
                    },
                    Some(bi) => {
                        let pb = self.priority_of(&self.transforms[bi].channel_id);
                        let pc = self.priority_of(&e.channel_id);
                        if pc > pb || (pc == pb && !lex_le_channels(
                            &self.transforms[bi].channel_id,
                            &e.channel_id,
                        )) {
                            proof {
                                let cb = self.transforms@[bi as int].channel_id@;
                                let ci = self.transforms@[i as int].channel_id@;
                                lemma_lex_total(cb, ci);
                                lemma_lex_refl(ci);
                                assert forall|k: int|
                                    0 <= k < i + 1 && (#[trigger] self.transforms@[
                                        k
                                    ]).transform_id@ == transform_id@ implies spec_priority(
                                    self.channel_info@,
                                    self.transforms@[k].channel_id@,
                                ) < spec_priority(self.channel_info@, ci) || (spec_priority(
                                    self.channel_info@,
                                    self.transforms@[k].channel_id@,
                                ) == spec_priority(self.channel_info@, ci) && lex_le(
                                    ci,
                                    self.transforms@[k].channel_id@,
                                )) by {
                                    if k < i {
                                        let ck = self.transforms@[k].channel_id@;
                                        if spec_priority(self.channel_info@, ck) == spec_priority(
                                            self.channel_info@,
                                            ci,
                                        ) && lex_le(cb, ck) && lex_le(ci, cb) {
                                            lemma_lex_trans(ci, cb, ck);
                                        }
                                    }
                                }
                            }
                            best = Some(i);
                        } else {
                            proof {
                                assert forall|k: int|
                                    0 <= k < i + 1 && (#[trigger] self.transforms@[
                                        k
                                    ]).transform_id@ == transform_id@ implies spec_priority(
                                    self.channel_info@,
                                    self.transforms@[k].channel_id@,
                                ) < spec_priority(
                                    self.channel_info@,
                                    self.transforms@[bi as int].channel_id@,
                                ) || (spec_priority(
                                    self.channel_info@,
                                    self.transforms@[k].channel_id@,
                                ) == spec_priority(
                                    self.channel_info@,
                                    self.transforms@[bi as int].channel_id@,
                                ) && lex_le(
                                    self.transforms@[bi as int].channel_id@,
                                    self.transforms@[k].channel_id@,
                                )) by {}
                            }
                        }
                    },
                }
            }
            i = i + 1;
        }
        match best {
            Some(bi) => {
                proof {
                    assert(channel_supplies(
                        self.transforms@,
                        self.transforms@[bi as int].channel_id@,
                        transform_id@,
                    )) by {
                        assert(self.transforms@[bi as int].key() == (
                            self.transforms@[bi as int].channel_id@,
                            transform_id@,
                        ));
                    }
                    assert forall|c2: Seq<char>|
                        channel_supplies(
                            self.transforms@,
                            c2,
                            transform_id@,
                        ) implies spec_priority(self.channel_info@, c2) < spec_priority(
                        self.channel_info@,
                        self.transforms@[bi as int].channel_id@,
                    ) || (spec_priority(self.channel_info@, c2) == spec_priority(
                        self.channel_info@,
                        self.transforms@[bi as int].channel_id@,
                    ) && lex_le(self.transforms@[bi as int].channel_id@, c2)) by {
                        let k = choose|k: int|
                            0 <= k < self.transforms@.len() && (#[trigger] self.transforms@[
                                k
                            ]).key() == (c2, transform_id@);
                    }
                }
                Some(self.transforms[bi].channel_id.clone())
            },
            None => {
                proof {
                    if exists|c: Seq<char>| channel_supplies(self.transforms@, c, transform_id@) {
                        let c = choose|c: Seq<char>|
                            channel_supplies(self.transforms@, c, transform_id@);
                        let k = choose|k: int|
                            0 <= k < self.transforms@.len() && (#[trigger] self.transforms@[
                                k
                            ]).key() == (c, transform_id@);
                        assert(false);
                    }
                }
                None
            },
        }
    }
}

/// The lexicographic order is reflexive.
proof fn lemma_lex_refl(a: Seq<char>)
    ensures
        lex_le(a, a),
    decreases a.len(),
{
    if a.len() > 0 {
        lemma_lex_refl(a.drop_first());
    }
}

/// The lexicographic order is total.
proof fn lemma_lex_total(a: Seq<char>, b: Seq<char>)
    ensures
        lex_le(a, b) || lex_le(b, a),
    decreases a.len(),
{
    if a.len() > 0 && b.len() > 0 && (a[0] as u32) == (b[0] as u32) {
        lemma_lex_total(a.drop_first(), b.drop_first());
    }
}

/// The lexicographic order is transitive.
proof fn lemma_lex_trans(a: Seq<char>, b: Seq<char>, c: Seq<char>)
    requires
        lex_le(a, b),
        lex_le(b, c),
    ensures
        lex_le(a, c),
    decreases a.len(),
{
    if a.len() > 0 {
        assert(b.len() > 0);
        assert(c.len() > 0);
        if (a[0] as u32) == (b[0] as u32) && (b[0] as u32) == (c[0] as u32) {
            lemma_lex_trans(a.drop_first(), b.drop_first(), c.drop_first());
        }
    }
}

/// Priority resolution: when two channels supply one transform identifier
/// with distinct priorities, the query uses the channel with the higher one.
pub proof fn lemma_priority_resolution(
    rf: ReferenceFrames,
    t: (Seq<char>, Seq<char>),
    c1: Seq<char>,
    c2: Seq<char>,
)
    requires
        rf.wf(),
        channel_supplies(rf.transforms@, c1, t),
        channel_supplies(rf.transforms@, c2, t),
        spec_priority(rf.channel_info@, c1) < spec_priority(rf.channel_info@, c2),
    ensures
        !is_best_channel(rf, t, c1),
        forall|c: Seq<char>| is_best_channel(rf, t, c) ==> spec_priority(rf.channel_info@, c)
            >= spec_priority(rf.channel_info@, c2),
{
    assert forall|c: Seq<char>| is_best_channel(rf, t, c) implies spec_priority(
        rf.channel_info@,
        c,
    ) >= spec_priority(rf.channel_info@, c2) by {
        assert(channel_supplies(rf.transforms@, c2, t));
    }
}

} // verus!

verus! {

/// The views of a sequence of channel entries.
pub open spec fn entry_views(s: Seq<ChannelTransforms>) -> Seq<ChannelTransformsView> {
    s.map_values(|e: ChannelTransforms| e@)
}

/// The entries whose channel is listed, in order, as views.
pub open spec fn keep_by_channel(s: Seq<ChannelTransforms>, cs: Seq<Seq<char>>) -> Seq<
    ChannelTransformsView,
>
    decreases s.len(),
{
    if s.len() == 0 {
        Seq::empty()
    } else {
        let rest = keep_by_channel(s.drop_last(), cs);
        if cs.contains(s.last()@.channel_id) {
            rest.push(s.last()@)
        } else {
            rest
        }
    }
}

/// The entries whose transform identifier is listed, in order, as views.
pub open spec fn keep_by_tid(s: Seq<ChannelTransforms>, ts: Seq<(Seq<char>, Seq<char>)>) -> Seq<
    ChannelTransformsView,
>
    decreases s.len(),
{
    if s.len() == 0 {
        Seq::empty()
    } else {
        let rest = keep_by_tid(s.drop_last(), ts);
        if ts.contains(s.last()@.transform_id) {
            rest.push(s.last()@)
        } else {
            rest
        }
    }
}

/// The entries restricted to the half-open time window, entries left empty
/// dropped, in order, as views.
pub open spec fn keep_by_window(
    s: Seq<ChannelTransforms>,
    start_time: Option<Time>,
    end_time: Option<Time>,
) -> Seq<ChannelTransformsView>
    decreases s.len(),
{
    if s.len() == 0 {
        Seq::empty()
    } else {
        let rest = keep_by_window(s.drop_last(), start_time, end_time);
        let kept = crate::transform_edge::filter_window(s.last()@.transforms, start_time, end_time);
        if kept.len() > 0 {
            rest.push(
                ChannelTransformsView {
                    channel_id: s.last()@.channel_id,
                    transform_id: s.last()@.transform_id,
                    transforms: kept,
                },
            )
        } else {
            rest
        }
    }
}

/// Whether a channel identifier's text occurs in a list of identifiers.
fn channel_list_contains(list: &Vec<ChannelId>, c: &ChannelId) -> (r: bool)
    ensures
        r == list@.map_values(|x: ChannelId| x@).contains(c@),
{
    let mut i: usize = 0;
    while i < list.len()
        invariant
            0 <= i <= list@.len(),
            forall|k: int| 0 <= k < i ==> (#[trigger] list@[k])@ != c@,
        decreases list@.len() - i,
    {
        if &list[i] == c {
            proof {
                assert(list@.map_values(|x: ChannelId| x@)[i as int] == c@);
            }
            return true;
        }
        i = i + 1;
    }
    proof {
        if list@.map_values(|x: ChannelId| x@).contains(c@) {
            let vs = list@.map_values(|x: ChannelId| x@);
            let k = choose|k: int| 0 <= k < vs.len() && #[trigger] vs[k] == c@;
            assert(list@[k]@ == c@);
        }
    }
    false
}

/// Whether a transform identifier occurs in a list of identifiers.
fn tid_list_contains(list: &Vec<TransformId>, t: &TransformId) -> (r: bool)
    ensures
        r == list@.map_values(|x: TransformId| x@).contains(t@),
{
    let mut i: usize = 0;
    while i < list.len()
        invariant
            0 <= i <= list@.len(),
            forall|k: int| 0 <= k < i ==> (#[trigger] list@[k])@ != t@,
        decreases list@.len() - i,
    {
        if &list[i] == t {
            proof {
                assert(list@.map_values(|x: TransformId| x@)[i as int] == t@);
            }
            return true;
        }
        i = i + 1;
    }
    proof {
        if list@.map_values(|x: TransformId| x@).contains(t@) {
            let vs = list@.map_values(|x: TransformId| x@);
            let k = choose|k: int| 0 <= k < vs.len() && #[trigger] vs[k] == t@;
            assert(list@[k]@ == t@);
        }
    }
    false
}

impl ReferenceFrames {
    /// Keeps the entries supplied by the listed channels, with the frame,
    /// channel and transform metadata restricted to what the kept entries
    /// reference.
    #[verifier::loop_isolation(false)]
    pub fn filter_by_channel_ids(&self, channel_ids: &Vec<ChannelId>) -> (r: Result<
        ReferenceFrames,
        Error,
    >)
        requires
            self.wf(),
        ensures
            r matches Ok(rf) ==> {
                &&& rf.wf()
                &&& entry_views(rf.transforms@) == keep_by_channel(
                    self.transforms@,
                    channel_ids@.map_values(|x: ChannelId| x@),
                )
                &&& crate::transform_tree::fvs(rf.frame_info@) == keep_frames(
                    self.frame_info@,
                    rf.transforms@,
                )
                &&& forall|v: (Seq<char>, Seq<char>), p: crate::transform_info::TransformInfo|
                    #![trigger contains_tinfo(rf.transform_info@, v, p)]
                    contains_tinfo(rf.transform_info@, v, p) <==> (contains_tinfo(
                        self.transform_info@,
                        v,
                        p,
                    ) && entries_reference_tid(rf.transforms@, v))
                &&& forall|v: Seq<char>, p: ChannelInfo|
                    #![trigger contains_cinfo(rf.channel_info@, v, p)]
                    contains_cinfo(rf.channel_info@, v, p) <==> (contains_cinfo(
                        self.channel_info@,
                        v,
                        p,
                    ) && channel_ids@.map_values(|x: ChannelId| x@).contains(v))
            },
            r is Ok,
    {
        let ghost cs = channel_ids@.map_values(|x: ChannelId| x@);
        let mut kept: Vec<ChannelTransforms> = Vec::new();
        let mut i: usize = 0;
        while i < self.transforms.len()
            invariant
                0 <= i <= self.transforms@.len(),
                entry_views(kept@) == keep_by_channel(self.transforms@.take(i as int), cs),
                forall|k: int| 0 <= k < kept@.len() ==> (#[trigger] kept@[k]).wf(),
                forall|a: int, b: int| 0 <= a < b < kept@.len() ==> (#[trigger] kept@[a]).key()
                    != (#[trigger] kept@[b]).key(),
                forall|k: int|
                    #![trigger kept@[k]]
                    0 <= k < kept@.len() ==> exists|j: int|
                        0 <= j < i && kept@[k].key() == (#[trigger] self.transforms@[j]).key(),
            decreases self.transforms@.len() - i,
        {
            let e = &self.transforms[i];
            proof {
                assert(self.transforms@.take(i + 1).drop_last() == self.transforms@.take(i as int));
                assert(self.transforms@.take(i + 1).last() == self.transforms@[i as int]);
            }
            let ghost kept_before = kept@;
            if channel_list_contains(channel_ids, &e.channel_id) {
                let ghost pre = kept@;
                kept.push(e.clone());
                proof {
                    assert(entry_views(kept@) =~= entry_views(pre).push(
                        self.transforms@[i as int]@,
                    ));
                    assert(kept@[kept@.len() - 1].key() == self.transforms@[i as int].key());
                    lemma_key_index(self.transforms@, i as int);
                    assert forall|a: int, b: int|
                        0 <= a < b < kept@.len() implies (#[trigger] kept@[a]).key() != (
                    #[trigger] kept@[b]).key() by {
                        if b == kept@.len() - 1 {
                            let j = choose|j: int|
                                0 <= j < i && kept@[a].key() == (#[trigger] self.transforms@[
                                    j
                                ]).key();
                            assert(self.transforms@[j].key() != self.transforms@[
                                i as int
                            ].key());
                        }
                    }
                    assert forall|k: int|
                        0 <= k < kept@.len() implies exists|j: int|
                        0 <= j < i + 1 && (#[trigger] kept@[k]).key() == (
                        #[trigger] self.transforms@[j]).key() by {
                        if k < pre.len() {
                            let j = choose|j: int|
                                0 <= j < i && kept@[k].key() == (#[trigger] self.transforms@[
                                    j
                                ]).key();
                        } else {
                            assert(kept@[k].key() == self.transforms@[i as int].key());
                        }
                    }
                }
            }
            proof {
                assert forall|k: int|
                    0 <= k < kept@.len() implies exists|j: int|
                    0 <= j < i + 1 && (#[trigger] kept@[k]).key() == (
                    #[trigger] self.transforms@[j]).key() by {
                    if k < kept_before.len() {
                        let j = choose|j: int|
                            0 <= j < i && kept@[k].key() == (#[trigger] self.transforms@[
                                j
                            ]).key();
                    } else {
                        assert(kept@[k].key() == self.transforms@[i as int].key());
                    }
                }
            }
            i = i + 1;
        }
        proof {
            assert(self.transforms@.take(self.transforms@.len() as int) == self.transforms@);
        }
        let frame_info = self.keep_frames_for(&kept);
        let channel_info = self.keep_channel_info_in(channel_ids);
        let transform_info = self.keep_transform_info_for(&kept);
        Ok(ReferenceFrames { transforms: kept, frame_info, channel_info, transform_info })
    }

    /// Keeps the entries under the listed transform identifiers, with the
    /// metadata restricted accordingly.
    #[verifier::loop_isolation(false)]
    pub fn filter_by_transform_ids(&self, transform_ids: &Vec<TransformId>) -> (r: Result<
        ReferenceFrames,
        Error,
    >)
        requires
            self.wf(),
        ensures
            r matches Ok(rf) ==> {
                &&& rf.wf()
                &&& entry_views(rf.transforms@) == keep_by_tid(
                    self.transforms@,
                    transform_ids@.map_values(|x: TransformId| x@),
                )
                &&& crate::transform_tree::fvs(rf.frame_info@) == keep_frames(
                    self.frame_info@,
                    rf.transforms@,
                )
                &&& forall|v: (Seq<char>, Seq<char>), p: crate::transform_info::TransformInfo|
                    #![trigger contains_tinfo(rf.transform_info@, v, p)]
                    contains_tinfo(rf.transform_info@, v, p) <==> (contains_tinfo(
                        self.transform_info@,
                        v,
                        p,
                    ) && entries_reference_tid(rf.transforms@, v))
                &&& forall|v: Seq<char>, p: ChannelInfo|
                    #![trigger contains_cinfo(rf.channel_info@, v, p)]
                    contains_cinfo(rf.channel_info@, v, p) <==> (contains_cinfo(
                        self.channel_info@,
                        v,
                        p,
                    ) && entries_reference_channel(rf.transforms@, v))
            },
            r is Ok,
    {
        let ghost ts = transform_ids@.map_values(|x: TransformId| x@);
        let mut kept: Vec<ChannelTransforms> = Vec::new();
        let mut i: usize = 0;
        while i < self.transforms.len()
            invariant
                0 <= i <= self.transforms@.len(),
                entry_views(kept@) == keep_by_tid(self.transforms@.take(i as int), ts),
                forall|k: int| 0 <= k < kept@.len() ==> (#[trigger] kept@[k]).wf(),
                forall|a: int, b: int| 0 <= a < b < kept@.len() ==> (#[trigger] kept@[a]).key()
                    != (#[trigger] kept@[b]).key(),
                forall|k: int|
                    #![trigger kept@[k]]
                    0 <= k < kept@.len() ==> exists|j: int|
                        0 <= j < i && kept@[k].key() == (#[trigger] self.transforms@[j]).key(),
            decreases self.transforms@.len() - i,
        {
            let e = &self.transforms[i];
            proof {
                assert(self.transforms@.take(i + 1).drop_last() == self.transforms@.take(i as int));
                assert(self.transforms@.take(i + 1).last() == self.transforms@[i as int]);
            }
            let ghost kept_before = kept@;
            if tid_list_contains(transform_ids, &e.transform_id) {
                let ghost pre = kept@;
                kept.push(e.clone());
                proof {
                    assert(entry_views(kept@) =~= entry_views(pre).push(
                        self.transforms@[i as int]@,
                    ));
                    assert(kept@[kept@.len() - 1].key() == self.transforms@[i as int].key());
                    lemma_key_index(self.transforms@, i as int);
                    assert forall|a: int, b: int|
                        0 <= a < b < kept@.len() implies (#[trigger] kept@[a]).key() != (
                    #[trigger] kept@[b]).key() by {
                        if b == kept@.len() - 1 {
                            let j = choose|j: int|
                                0 <= j < i && kept@[a].key() == (#[trigger] self.transforms@[
                                    j
                                ]).key();
                            assert(self.transforms@[j].key() != self.transforms@[
                                i as int
                            ].key());
                        }
                    }
                    assert forall|k: int|
                        0 <= k < kept@.len() implies exists|j: int|
                        0 <= j < i + 1 && (#[trigger] kept@[k]).key() == (
                        #[trigger] self.transforms@[j]).key() by {
                        if k < pre.len() {
                            let j = choose|j: int|
                                0 <= j < i && kept@[k].key() == (#[trigger] self.transforms@[
                                    j
                                ]).key();
                        } else {
                            assert(kept@[k].key() == self.transforms@[i as int].key());
                        }
                    }
                }
            }
            proof {
                assert forall|k: int|
                    0 <= k < kept@.len() implies exists|j: int|
                    0 <= j < i + 1 && (#[trigger] kept@[k]).key() == (
                    #[trigger] self.transforms@[j]).key() by {
                    if k < kept_before.len() {
                        let j = choose|j: int|
                            0 <= j < i && kept@[k].key() == (#[trigger] self.transforms@[
                                j
                            ]).key();
                    } else {
                        assert(kept@[k].key() == self.transforms@[i as int].key());
                    }
                }
            }
            i = i + 1;
        }
        proof {
            assert(self.transforms@.take(self.transforms@.len() as int) == self.transforms@);
        }
        let frame_info = self.keep_frames_for(&kept);
        let channel_info = self.keep_channel_info_for(&kept);
        let transform_info = self.keep_transform_info_for(&kept);
        Ok(ReferenceFrames { transforms: kept, frame_info, channel_info, transform_info })
    }

    /// Keeps, per entry, the samples inside the half-open time window; an
    /// entry left without samples is dropped. Unset bounds keep everything.
    #[verifier::loop_isolation(false)]
    pub fn filter_by_time_interval(
        &self,
        start_time: &Option<Time>,
        stop_time: &Option<Time>,
    ) -> (r: Result<ReferenceFrames, Error>)
        requires
            self.wf(),
            start_time matches Some(t) ==> t.wf(),
            stop_time matches Some(t) ==> t.wf(),
        ensures
            r matches Ok(rf) ==> {
                &&& rf.wf()
                &&& entry_views(rf.transforms@) == keep_by_window(
                    self.transforms@,
                    *start_time,
                    *stop_time,
                )
                &&& crate::transform_tree::fvs(rf.frame_info@) == keep_frames(
                    self.frame_info@,
                    rf.transforms@,
                )
                &&& forall|v: (Seq<char>, Seq<char>), p: crate::transform_info::TransformInfo|
                    #![trigger contains_tinfo(rf.transform_info@, v, p)]
                    contains_tinfo(rf.transform_info@, v, p) <==> (contains_tinfo(
                        self.transform_info@,
                        v,
                        p,
                    ) && entries_reference_tid(rf.transforms@, v))
                &&& forall|v: Seq<char>, p: ChannelInfo|
                    #![trigger contains_cinfo(rf.channel_info@, v, p)]
                    contains_cinfo(rf.channel_info@, v, p) <==> (contains_cinfo(
                        self.channel_info@,
                        v,
                        p,
                    ) && entries_reference_channel(rf.transforms@, v))
            },
            r is Ok,
    {
        let mut kept: Vec<ChannelTransforms> = Vec::new();
        let mut i: usize = 0;
        while i < self.transforms.len()
            invariant
                0 <= i <= self.transforms@.len(),
                start_time matches Some(t) ==> t.wf(),
                stop_time matches Some(t) ==> t.wf(),
                entry_views(kept@) == keep_by_window(
                    self.transforms@.take(i as int),
                    *start_time,
                    *stop_time,
                ),
                forall|k: int| 0 <= k < kept@.len() ==> (#[trigger] kept@[k]).wf(),
                forall|a: int, b: int| 0 <= a < b < kept@.len() ==> (#[trigger] kept@[a]).key()
                    != (#[trigger] kept@[b]).key(),
                forall|k: int|
                    #![trigger kept@[k]]
                    0 <= k < kept@.len() ==> exists|j: int|
                        0 <= j < i && kept@[k].key() == (#[trigger] self.transforms@[j]).key(),
            decreases self.transforms@.len() - i,
        {
            let e = &self.transforms[i];
            proof {
                assert(self.transforms@.take(i + 1).drop_last() == self.transforms@.take(i as int));
                assert(self.transforms@.take(i + 1).last() == self.transforms@[i as int]);
            }
            let ghost kept_before = kept@;
            let mut windowed = e.clone();
            let kept_any = match windowed.filter_samples_entry(start_time, stop_time) {
                true => true,
                false => false,
            };
            if kept_any {
                let ghost pre = kept@;
                kept.push(windowed);
                proof {
                    assert(entry_views(kept@) =~= entry_views(pre).push(
                        ChannelTransformsView {
                            channel_id: self.transforms@[i as int]@.channel_id,
                            transform_id: self.transforms@[i as int]@.transform_id,
                            transforms: crate::transform_edge::filter_window(
                                self.transforms@[i as int]@.transforms,
                                *start_time,
                                *stop_time,
                            ),
                        },
                    ));
                    assert(kept@[kept@.len() - 1].key() == self.transforms@[i as int].key());
                    lemma_key_index(self.transforms@, i as int);
                    assert forall|a: int, b: int|
                        0 <= a < b < kept@.len() implies (#[trigger] kept@[a]).key() != (
                    #[trigger] kept@[b]).key() by {
                        if b == kept@.len() - 1 {
                            let j = choose|j: int|
                                0 <= j < i && kept@[a].key() == (#[trigger] self.transforms@[
                                    j
                                ]).key();
                            assert(self.transforms@[j].key() != self.transforms@[
                                i as int
                            ].key());
                        }
                    }
                    assert forall|k: int|
                        0 <= k < kept@.len() implies exists|j: int|
                        0 <= j < i + 1 && (#[trigger] kept@[k]).key() == (
                        #[trigger] self.transforms@[j]).key() by {
                        if k < pre.len() {
                            let j = choose|j: int|
                                0 <= j < i && kept@[k].key() == (#[trigger] self.transforms@[
                                    j
                                ]).key();
                        } else {
                            assert(kept@[k].key() == self.transforms@[i as int].key());
                        }
                    }
                }
            }
            proof {
                assert forall|k: int|
                    0 <= k < kept@.len() implies exists|j: int|
                    0 <= j < i + 1 && (#[trigger] kept@[k]).key() == (
                    #[trigger] self.transforms@[j]).key() by {
                    if k < kept_before.len() {
                        let j = choose|j: int|
                            0 <= j < i && kept@[k].key() == (#[trigger] self.transforms@[
                                j
                            ]).key();
                    } else {
                        assert(kept@[k].key() == self.transforms@[i as int].key());
                    }
                }
            }
            i = i + 1;
        }
        proof {
            assert(self.transforms@.take(self.transforms@.len() as int) == self.transforms@);
        }
        let frame_info = self.keep_frames_for(&kept);
        let channel_info = self.keep_channel_info_for(&kept);
        let transform_info = self.keep_transform_info_for(&kept);
        Ok(ReferenceFrames { transforms: kept, frame_info, channel_info, transform_info })
    }
}

impl ChannelTransforms {
    /// Restricts the samples to the half-open window, reporting whether any
    /// remain; the entry is unchanged when none would.
    fn filter_samples_entry(&mut self, start_time: &Option<Time>, end_time: &Option<Time>) -> (r:
        bool)
        requires
            old(self).wf(),
            start_time matches Some(t) ==> t.wf(),
            end_time matches Some(t) ==> t.wf(),
        ensures
            r == (crate::transform_edge::filter_window(
                old(self).transforms@,
                *start_time,
                *end_time,
            ).len() > 0),
            r ==> final(self).transforms@ == crate::transform_edge::filter_window(
                old(self).transforms@,
                *start_time,
                *end_time,
            ) && final(self).wf(),
            final(self).channel_id@ == old(self).channel_id@,
            final(self).transform_id@ == old(self).transform_id@,
            !r ==> *final(self) == *old(self),
    {
        let ghost orig = self.transforms@;
        let mut out: Vec<TimedTransform> = Vec::new();
        let mut i: usize = 0;
        while i < self.transforms.len()
            invariant
                0 <= i <= self.transforms@.len(),
                self.transforms@ == orig,
                start_time matches Some(t) ==> t.wf(),
                end_time matches Some(t) ==> t.wf(),
                times_wf(orig),
                strictly_sorted(orig),
                out@ == crate::transform_edge::filter_window(
                    orig.take(i as int),
                    *start_time,
                    *end_time,
                ),
            decreases self.transforms@.len() - i,
        {
            let s = self.transforms[i];
            let keep_low = match start_time {
                Some(t) => t.le(&s.timestamp),
                None => true,
            };
            let keep_high = match end_time {
                Some(t) => s.timestamp.lt(t),
                None => true,
            };
            proof {
                assert(orig.take(i + 1).drop_last() == orig.take(i as int));
                assert(orig.take(i + 1).last() == orig[i as int]);
            }
            if keep_low && keep_high {
                out.push(s);
            }
            i = i + 1;
        }
        proof {
            assert(orig.take(orig.len() as int) == orig);
        }
        if out.len() == 0 {
            return false;
        }
        proof {
            crate::transform_edge::lemma_filter_window_wf_pub(orig, *start_time, *end_time);
        }
        self.transforms = out;
        true
    }
}

} // verus!

verus! {

/// Whether a frame identifier is an endpoint of some entry.
pub open spec fn frame_referenced(v: Seq<char>, es: Seq<ChannelTransforms>) -> bool {
    exists|i: int|
        0 <= i < es.len() && ((#[trigger] es[i]).transform_id@.0 == v || es[i].transform_id@.1
            == v)
}

/// Whether a channel identifier is carried by some entry.
pub open spec fn channel_referenced(v: Seq<char>, es: Seq<ChannelTransforms>) -> bool {
    exists|i: int| 0 <= i < es.len() && (#[trigger] es[i]).channel_id@ == v
}

/// Whether a transform identifier is carried by some entry.
pub open spec fn tid_referenced(t: (Seq<char>, Seq<char>), es: Seq<ChannelTransforms>) -> bool {
    exists|i: int| 0 <= i < es.len() && (#[trigger] es[i]).transform_id@ == t
}

/// The frame entries whose identifier some entry references, as views.
pub open spec fn keep_frames(s: Seq<FrameInfo>, es: Seq<ChannelTransforms>) -> Seq<
    crate::frames::FrameInfoView,
>
    decreases s.len(),
{
    if s.len() == 0 {
        Seq::empty()
    } else {
        let rest = keep_frames(s.drop_last(), es);
        if frame_referenced(s.last().id@, es) {
            rest.push(s.last()@)
        } else {
            rest
        }
    }
}

impl ReferenceFrames {
    /// Whether some entry references the frame as an endpoint.
    fn entries_reference_frame(entries: &Vec<ChannelTransforms>, frame_id: &FrameId) -> (r: bool)
        ensures
            r == frame_referenced(frame_id@, entries@),
    {
        let mut i: usize = 0;
        while i < entries.len()
            invariant
                0 <= i <= entries@.len(),
                forall|k: int| 0 <= k < i ==> (#[trigger] entries@[k]).transform_id@.0 != frame_id@
                    && entries@[k].transform_id@.1 != frame_id@,
            decreases entries@.len() - i,
        {
            let t = &entries[i].transform_id;
            if &t.parent_frame_id == frame_id || &t.child_frame_id == frame_id {
                return true;
            }
            i = i + 1;
        }
        false
    }

    /// The frame metadata restricted to frames the entries reference.
    #[verifier::loop_isolation(false)]
    fn keep_frames_for(&self, entries: &Vec<ChannelTransforms>) -> (r: Vec<FrameInfo>)
        requires
            self.wf(),
        ensures
            crate::transform_tree::fvs(r@) == keep_frames(self.frame_info@, entries@),
            forall|a: int, b: int| 0 <= a < b < r@.len() ==> (#[trigger] r@[a]).id@ != (
            #[trigger] r@[b]).id@,
    {
        let mut out: Vec<FrameInfo> = Vec::new();
        let mut i: usize = 0;
        while i < self.frame_info.len()
            invariant
                0 <= i <= self.frame_info@.len(),
                crate::transform_tree::fvs(out@) == keep_frames(
                    self.frame_info@.take(i as int),
                    entries@,
                ),
                forall|k: int|
                    #![trigger out@[k]]
                    0 <= k < out@.len() ==> exists|j: int| 0 <= j < i && out@[k]@
                        == self.frame_info@[j]@,
                forall|a: int, b: int| 0 <= a < b < out@.len() ==> (#[trigger] out@[a]).id@ != (
                #[trigger] out@[b]).id@,
            decreases self.frame_info@.len() - i,
        {
            proof {
                assert(self.frame_info@.take(i + 1).drop_last() == self.frame_info@.take(i as int));
                assert(self.frame_info@.take(i + 1).last() == self.frame_info@[i as int]);
            }
            if Self::entries_reference_frame(entries, &self.frame_info[i].id) {
                let ghost pre = out@;
                out.push(self.frame_info[i].clone());
                proof {
                    assert(crate::transform_tree::fvs(out@) =~= crate::transform_tree::fvs(
                        pre,
                    ).push(self.frame_info@[i as int]@));
                    assert forall|a: int, b: int|
                        0 <= a < b < out@.len() implies (#[trigger] out@[a]).id@ != (
                    #[trigger] out@[b]).id@ by {
                        if b == out@.len() - 1 {
                            let j = choose|j: int|
                                0 <= j < i && (#[trigger] out@[a])@ == self.frame_info@[j]@;
                            assert(self.frame_info@[j].id@ != self.frame_info@[i as int].id@);
                        }
                    }
                }
            }
            i = i + 1;
        }
        proof {
            assert(self.frame_info@.take(self.frame_info@.len() as int) == self.frame_info@);
        }
        out
    }

    /// The channel metadata restricted to the listed channels.
    #[verifier::loop_isolation(false)]
    fn keep_channel_info_in(&self, channel_ids: &Vec<ChannelId>) -> (r: Vec<(
        ChannelId,
        ChannelInfo,
    )>)
        requires
            self.wf(),
        ensures
            forall|a: int, b: int| 0 <= a < b < r@.len() ==> (#[trigger] r@[a]).0@ != (
            #[trigger] r@[b]).0@,
            forall|v: Seq<char>, p: ChannelInfo|
                #![trigger contains_cinfo(r@, v, p)]
                contains_cinfo(r@, v, p) <==> (contains_cinfo(self.channel_info@, v, p)
                    && channel_ids@.map_values(|x: ChannelId| x@).contains(v)),
    {
        let mut out: Vec<(ChannelId, ChannelInfo)> = Vec::new();
        let mut i: usize = 0;
        while i < self.channel_info.len()
            invariant
                0 <= i <= self.channel_info@.len(),
                forall|k: int|
                    #![trigger out@[k]]
                    0 <= k < out@.len() ==> exists|j: int|
                        0 <= j < i && out@[k].0@ == (#[trigger] self.channel_info@[j]).0@
                            && out@[k].1 == self.channel_info@[j].1 && channel_ids@.map_values(
                            |x: ChannelId| x@,
                        ).contains(out@[k].0@),
                forall|a: int, b: int| 0 <= a < b < out@.len() ==> (#[trigger] out@[a]).0@ != (
                #[trigger] out@[b]).0@,
                forall|j: int|
                    0 <= j < i && channel_ids@.map_values(|x: ChannelId| x@).contains(
                        (#[trigger] self.channel_info@[j]).0@,
                    ) ==> contains_cinfo(out@, self.channel_info@[j].0@, self.channel_info@[j].1),
            decreases self.channel_info@.len() - i,
        {
            if channel_list_contains(channel_ids, &self.channel_info[i].0) {
                let ghost pre = out@;
                out.push((self.channel_info[i].0.clone(), self.channel_info[i].1));
                proof {
                    assert(out@[out@.len() - 1].0@ == self.channel_info@[i as int].0@);
                    assert forall|a: int, b: int|
                        0 <= a < b < out@.len() implies (#[trigger] out@[a]).0@ != (
                    #[trigger] out@[b]).0@ by {
                        if b == out@.len() - 1 {
                            let j = choose|j: int|
                                0 <= j < i && out@[a].0@ == (#[trigger] self.channel_info@[j]).0@
                                    && out@[a].1 == self.channel_info@[j].1
                                    && channel_ids@.map_values(|x: ChannelId| x@).contains(
                                    out@[a].0@,
                                );
                        }
                    }
                    assert forall|j: int|
                        0 <= j < i + 1 && channel_ids@.map_values(|x: ChannelId| x@).contains(
                            (#[trigger] self.channel_info@[j]).0@,
                        ) implies contains_cinfo(
                        out@,
                        self.channel_info@[j].0@,
                        self.channel_info@[j].1,
                    ) by {
                        if j < i {
                            let k = choose|k: int|
                                0 <= k < pre.len() && (#[trigger] pre[k]).0@
                                    == self.channel_info@[j].0@ && pre[k].1
                                    == self.channel_info@[j].1;
                            assert(out@[k].0@ == self.channel_info@[j].0@ && out@[k].1
                                == self.channel_info@[j].1);
                        } else {
                            assert(out@[out@.len() - 1].0@ == self.channel_info@[j].0@
                                && out@[out@.len() - 1].1 == self.channel_info@[j].1);
                        }
                    }
                }
            }
            i = i + 1;
        }
        proof {
            assert forall|v: Seq<char>, p: ChannelInfo| #[trigger] contains_cinfo(out@, v, p)
                implies (contains_cinfo(self.channel_info@, v, p) && channel_ids@.map_values(
                |x: ChannelId| x@,
            ).contains(v)) by {
                let k = choose|k: int|
                    0 <= k < out@.len() && (#[trigger] out@[k]).0@ == v && out@[k].1 == p;
                let j = choose|j: int|
                    0 <= j < self.channel_info@.len() && out@[k].0@ == (
                    #[trigger] self.channel_info@[j]).0@ && out@[k].1 == self.channel_info@[j].1
                        && channel_ids@.map_values(|x: ChannelId| x@).contains(out@[k].0@);
                assert(contains_cinfo(self.channel_info@, v, p)) by {
                    assert(self.channel_info@[j].0@ == v && self.channel_info@[j].1 == p);
                }
            }
            assert forall|v: Seq<char>, p: ChannelInfo|
                (contains_cinfo(self.channel_info@, v, p) && channel_ids@.map_values(
                    |x: ChannelId| x@,
                ).contains(v)) implies #[trigger] contains_cinfo(out@, v, p) by {
                let j = choose|j: int|
                    0 <= j < self.channel_info@.len() && (#[trigger] self.channel_info@[j]).0@
                        == v && self.channel_info@[j].1 == p;
            }
        }
        out
    }

    /// The channel metadata restricted to channels the entries carry.
    #[verifier::loop_isolation(false)]
    #[verifier::rlimit(60)]
    #[verifier::spinoff_prover]
    fn keep_channel_info_for(&self, entries: &Vec<ChannelTransforms>) -> (r: Vec<(
        ChannelId,
        ChannelInfo,
    )>)
        requires
            self.wf(),
        ensures
            forall|a: int, b: int| 0 <= a < b < r@.len() ==> (#[trigger] r@[a]).0@ != (
            #[trigger] r@[b]).0@,
            forall|v: Seq<char>, p: ChannelInfo|
                #![trigger contains_cinfo(r@, v, p)]
                contains_cinfo(r@, v, p) <==> (contains_cinfo(self.channel_info@, v, p)
                    && entries_reference_channel(entries@, v)),
    {
        let mut out: Vec<(ChannelId, ChannelInfo)> = Vec::new();
        let ghost mut src: Seq<int> = Seq::empty();
        let mut i: usize = 0;
        while i < self.channel_info.len()
            invariant
                0 <= i <= self.channel_info@.len(),
                src.len() == out@.len(),
                forall|k: int| 0 <= k < src.len() ==> 0 <= #[trigger] src[k] < i,
                forall|k: int| 0 <= k < src.len() ==> (#[trigger] out@[k]).0@
                    == self.channel_info@[src[k]].0@,
                forall|a: int, b: int| 0 <= a < b < src.len() ==> src[a] < src[b],
                forall|v: Seq<char>, p: ChannelInfo|
                    #![trigger contains_cinfo(out@, v, p)]
                    contains_cinfo(out@, v, p) <==> (contains_cinfo(
                        self.channel_info@.take(i as int),
                        v,
                        p,
                    ) && entries_reference_channel(entries@, v)),
            decreases self.channel_info@.len() - i,
        {
            let ghost out_pre = out@;
            let mut referenced = false;
            let mut j: usize = 0;
            while j < entries.len()
                invariant
                    0 <= j <= entries@.len(),
                    i < self.channel_info@.len(),
                    referenced ==> entries_reference_channel(
                        entries@,
                        self.channel_info@[i as int].0@,
                    ),
                    !referenced ==> forall|k: int|
                        0 <= k < j ==> (#[trigger] entries@[k]).channel_id@
                            != self.channel_info@[i as int].0@,
                decreases entries@.len() - j + if referenced {
                    0int
                } else {
                    1int
                },
            {
                if referenced {
                    j = entries.len();
                } else if &entries[j].channel_id == &self.channel_info[i].0 {
                    proof {
                        assert(entries@[j as int].channel_id@ == self.channel_info@[i as int].0@);
                    }
                    referenced = true;
                } else {
                    j = j + 1;
                }
            }
            proof {
                assert(referenced == entries_reference_channel(
                    entries@,
                    self.channel_info@[i as int].0@,
                ));
            }
            if referenced {
                out.push((self.channel_info[i].0.clone(), self.channel_info[i].1));
                proof {
                    src = src.push(i as int);
                }
            }
            proof {
                assert(self.channel_info@.take(i + 1).drop_last() == self.channel_info@.take(
                    i as int,
                ));
                assert(self.channel_info@.take(i + 1).last() == self.channel_info@[i as int]);
                assert forall|v: Seq<char>, p: ChannelInfo|
                    #[trigger] contains_cinfo(out@, v, p) <==> (contains_cinfo(
                        self.channel_info@.take(i + 1),
                        v,
                        p,
                    ) && entries_reference_channel(entries@, v)) by {
                    let pref = self.channel_info@.take(i + 1);
                    if contains_cinfo(out@, v, p) {
                        let k = choose|k: int|
                            0 <= k < out@.len() && (#[trigger] out@[k]).0@ == v && out@[k].1 == p;
                        if k < out_pre.len() {
                            assert(out@[k] == out_pre[k]);
                            assert(contains_cinfo(out_pre, v, p));
                            assert(contains_cinfo(self.channel_info@.take(i as int), v, p));
                            let m = choose|m: int|
                                0 <= m < self.channel_info@.take(i as int).len()
                                    && (#[trigger] self.channel_info@.take(i as int)[m]).0@ == v
                                    && self.channel_info@.take(i as int)[m].1 == p;
                            assert(pref[m].0@ == v && pref[m].1 == p);
                        } else {
                            assert(k == out@.len() - 1);
                            assert(out@[k].0@ == self.channel_info@[i as int].0@);
                            assert(out@[k].1 == self.channel_info@[i as int].1);
                            assert(pref[i as int].0@ == v && pref[i as int].1 == p);
                        }
                    }
                    if contains_cinfo(pref, v, p) && entries_reference_channel(entries@, v) {
                        let m = choose|m: int|
                            0 <= m < pref.len() && (#[trigger] pref[m]).0@ == v && pref[m].1 == p;
                        if m < i {
                            assert(self.channel_info@.take(i as int)[m].0@ == v
                                && self.channel_info@.take(i as int)[m].1 == p);
                            assert(contains_cinfo(self.channel_info@.take(i as int), v, p));
                            assert(contains_cinfo(out_pre, v, p));
                            let k = choose|k: int|
                                0 <= k < out_pre.len() && (#[trigger] out_pre[k]).0@ == v
                                    && out_pre[k].1 == p;
                            assert(out@[k] == out_pre[k]);
                            assert(out@[k].0@ == v && out@[k].1 == p);
                            assert(contains_cinfo(out@, v, p));
                        } else {
                            assert(referenced);
                            assert(out@.last().0@ == self.channel_info@[i as int].0@);
                            assert(out@.last().1 == self.channel_info@[i as int].1);
                            assert(out@.last().0@ == v && out@.last().1 == p);
                        }
                    }
                }
            }
            i = i + 1;
        }
        proof {
            assert(self.channel_info@.take(self.channel_info@.len() as int) == self.channel_info@);
        }
        proof {
            assert forall|a: int, b: int|
                0 <= a < b < out@.len() implies (#[trigger] out@[a]).0@ != (
            #[trigger] out@[b]).0@ by {
                assert(out@[a].0@ == self.channel_info@[src[a]].0@);
                assert(out@[b].0@ == self.channel_info@[src[b]].0@);
                assert(src[a] < src[b]);
            }
        }
        out
    }

    /// The per-transform policies restricted to identifiers the entries carry.
    #[verifier::loop_isolation(false)]
    #[verifier::rlimit(60)]
    #[verifier::spinoff_prover]
    fn keep_transform_info_for(&self, entries: &Vec<ChannelTransforms>) -> (r: Vec<(
        TransformId,
        crate::transform_info::TransformInfo,
    )>)
        requires
            self.wf(),
        ensures
            forall|a: int, b: int| 0 <= a < b < r@.len() ==> (#[trigger] r@[a]).0@ != (
            #[trigger] r@[b]).0@,
            forall|v: (Seq<char>, Seq<char>), p: crate::transform_info::TransformInfo|
                #![trigger contains_tinfo(r@, v, p)]
                contains_tinfo(r@, v, p) <==> (contains_tinfo(self.transform_info@, v, p)
                    && entries_reference_tid(entries@, v)),
    {
        let mut out: Vec<(TransformId, crate::transform_info::TransformInfo)> = Vec::new();
        let ghost mut src: Seq<int> = Seq::empty();
        let mut i: usize = 0;
        while i < self.transform_info.len()
            invariant
                0 <= i <= self.transform_info@.len(),
                src.len() == out@.len(),
                forall|k: int| 0 <= k < src.len() ==> 0 <= #[trigger] src[k] < i,
                forall|k: int| 0 <= k < src.len() ==> (#[trigger] out@[k]).0@
                    == self.transform_info@[src[k]].0@,
                forall|a: int, b: int| 0 <= a < b < src.len() ==> src[a] < src[b],
                forall|v: (Seq<char>, Seq<char>), p: crate::transform_info::TransformInfo|
                    #![trigger contains_tinfo(out@, v, p)]
                    contains_tinfo(out@, v, p) <==> (contains_tinfo(
                        self.transform_info@.take(i as int),
                        v,
                        p,
                    ) && entries_reference_tid(entries@, v)),
            decreases self.transform_info@.len() - i,
        {
            let ghost out_pre = out@;
            let mut referenced = false;
            let mut j: usize = 0;
            while j < entries.len()
                invariant
                    0 <= j <= entries@.len(),
                    i < self.transform_info@.len(),
                    referenced ==> entries_reference_tid(
                        entries@,
                        self.transform_info@[i as int].0@,
                    ),
                    !referenced ==> forall|k: int|
                        0 <= k < j ==> (#[trigger] entries@[k]).transform_id@
                            != self.transform_info@[i as int].0@,
                decreases entries@.len() - j + if referenced {
                    0int
                } else {
                    1int
                },
            {
                if referenced {
                    j = entries.len();
                } else if &entries[j].transform_id == &self.transform_info[i].0 {
                    proof {
                        assert(entries@[j as int].transform_id@
                            == self.transform_info@[i as int].0@);
                    }
                    referenced = true;
                } else {
                    j = j + 1;
                }
            }
            proof {
                assert(referenced == entries_reference_tid(
                    entries@,
                    self.transform_info@[i as int].0@,
                ));
            }
            if referenced {
                out.push((self.transform_info[i].0.clone(), self.transform_info[i].1));
                proof {
                    src = src.push(i as int);
                }
            }
            proof {
                assert(self.transform_info@.take(i + 1).drop_last() == self.transform_info@.take(
                    i as int,
                ));
                assert(self.transform_info@.take(i + 1).last() == self.transform_info@[i as int]);
                assert forall|v: (Seq<char>, Seq<char>), p: crate::transform_info::TransformInfo|
                    #[trigger] contains_tinfo(out@, v, p) <==> (contains_tinfo(
                        self.transform_info@.take(i + 1),
                        v,
                        p,
                    ) && entries_reference_tid(entries@, v)) by {
                    let pref = self.transform_info@.take(i + 1);
                    if contains_tinfo(out@, v, p) {
                        let k = choose|k: int|
                            0 <= k < out@.len() && (#[trigger] out@[k]).0@ == v && out@[k].1 == p;
                        if k < out_pre.len() {
                            assert(out@[k] == out_pre[k]);
                            assert(contains_tinfo(out_pre, v, p));
                            assert(contains_tinfo(self.transform_info@.take(i as int), v, p));
                            let m = choose|m: int|
                                0 <= m < self.transform_info@.take(i as int).len()
                                    && (#[trigger] self.transform_info@.take(i as int)[m]).0@ == v
                                    && self.transform_info@.take(i as int)[m].1 == p;
                            assert(pref[m].0@ == v && pref[m].1 == p);
                        } else {
                            assert(k == out@.len() - 1);
                            assert(out@[k].0@ == self.transform_info@[i as int].0@);
                            assert(out@[k].1 == self.transform_info@[i as int].1);
                            assert(pref[i as int].0@ == v && pref[i as int].1 == p);
                        }
                    }
                    if contains_tinfo(pref, v, p) && entries_reference_tid(entries@, v) {
                        let m = choose|m: int|
                            0 <= m < pref.len() && (#[trigger] pref[m]).0@ == v && pref[m].1 == p;
                        if m < i {
                            assert(self.transform_info@.take(i as int)[m].0@ == v
                                && self.transform_info@.take(i as int)[m].1 == p);
                            assert(contains_tinfo(self.transform_info@.take(i as int), v, p));
                            assert(contains_tinfo(out_pre, v, p));
                            let k = choose|k: int|
                                0 <= k < out_pre.len() && (#[trigger] out_pre[k]).0@ == v
                                    && out_pre[k].1 == p;
                            assert(out@[k] == out_pre[k]);
                            assert(out@[k].0@ == v && out@[k].1 == p);
                            assert(contains_tinfo(out@, v, p));
                        } else {
                            assert(referenced);
                            assert(out@.last().0@ == self.transform_info@[i as int].0@);
                            assert(out@.last().1 == self.transform_info@[i as int].1);
                            assert(out@.last().0@ == v && out@.last().1 == p);
                        }
                    }
                }
            }
            i = i + 1;
        }
        proof {
            assert(self.transform_info@.take(self.transform_info@.len() as int)
                == self.transform_info@);
        }
        proof {
            assert forall|a: int, b: int|
                0 <= a < b < out@.len() implies (#[trigger] out@[a]).0@ != (
            #[trigger] out@[b]).0@ by {
                assert(out@[a].0@ == self.transform_info@[src[a]].0@);
                assert(out@[b].0@ == self.transform_info@[src[b]].0@);
                assert(src[a] < src[b]);
            }
        }
        out
    }
}

/// Whether the channel metadata holds the given identifier with the given
/// payload.
pub open spec fn contains_cinfo(s: Seq<(ChannelId, ChannelInfo)>, v: Seq<char>, p: ChannelInfo) -> bool {
    exists|i: int| 0 <= i < s.len() && (#[trigger] s[i]).0@ == v && s[i].1 == p
}

/// Whether the per-transform policies hold the given identifier with the
/// given payload.
pub open spec fn contains_tinfo(
    s: Seq<(TransformId, crate::transform_info::TransformInfo)>,
    v: (Seq<char>, Seq<char>),
    p: crate::transform_info::TransformInfo,
) -> bool {
    exists|i: int| 0 <= i < s.len() && (#[trigger] s[i]).0@ == v && s[i].1 == p
}

/// Whether some entry belongs to the given channel.
pub open spec fn entries_reference_channel(es: Seq<ChannelTransforms>, v: Seq<char>) -> bool {
    exists|k: int| 0 <= k < es.len() && (#[trigger] es[k]).channel_id@ == v
}

/// Whether some entry carries the given transform identifier.
pub open spec fn entries_reference_tid(
    es: Seq<ChannelTransforms>,
    v: (Seq<char>, Seq<char>),
) -> bool {
    exists|k: int| 0 <= k < es.len() && (#[trigger] es[k]).transform_id@ == v
}

} // verus!

verus! {

/// The policies stored for a transform identifier, the defaults when none
/// are.
pub open spec fn spec_transform_info(
    s: Seq<(TransformId, crate::transform_info::TransformInfo)>,
    t: (Seq<char>, Seq<char>),
) -> crate::transform_info::TransformInfo {
    if exists|i: int| 0 <= i < s.len() && (#[trigger] s[i]).0@ == t {
        let i = choose|i: int| 0 <= i < s.len() && (#[trigger] s[i]).0@ == t;
        s[i].1
    } else {
        crate::transform_info::TransformInfo {
            interpolation_method: crate::transform_info::InterpolationMethod::Step,
            extrapolation_method: crate::transform_info::ExtrapolationMethod::Constant,
        }
    }
}

proof fn lemma_spec_transform_info(
    s: Seq<(TransformId, crate::transform_info::TransformInfo)>,
    t: (Seq<char>, Seq<char>),
    i: int,
)
    requires
        forall|a: int, b: int| 0 <= a < b < s.len() ==> (#[trigger] s[a]).0@ != (
        #[trigger] s[b]).0@,
        0 <= i < s.len(),
        s[i].0@ == t,
    ensures
        spec_transform_info(s, t) == s[i].1,
{
    let j = choose|j: int| 0 <= j < s.len() && (#[trigger] s[j]).0@ == t;
    if i != j {
        assert(false);
    }
}

proof fn lemma_spec_transform_info_absent(
    s: Seq<(TransformId, crate::transform_info::TransformInfo)>,
    t: (Seq<char>, Seq<char>),
)
    requires
        forall|k: int| 0 <= k < s.len() ==> (#[trigger] s[k]).0@ != t,
    ensures
        spec_transform_info(s, t) == (crate::transform_info::TransformInfo {
            interpolation_method: crate::transform_info::InterpolationMethod::Step,
            extrapolation_method: crate::transform_info::ExtrapolationMethod::Constant,
        }),
{
    if exists|i: int| 0 <= i < s.len() && (#[trigger] s[i]).0@ == t {
        let i = choose|i: int| 0 <= i < s.len() && (#[trigger] s[i]).0@ == t;
        assert(false);
    }
}

impl ReferenceFrames {
    /// The policies for a transform identifier, the defaults when none are
    /// stored.
    #[verifier::loop_isolation(false)]
    fn transform_info_of(&self, transform_id: &TransformId) -> (r:
        crate::transform_info::TransformInfo)
        requires
            self.wf(),
        ensures
            r == spec_transform_info(self.transform_info@, transform_id@),
    {
        let mut i: usize = 0;
        while i < self.transform_info.len()
            invariant
                0 <= i <= self.transform_info@.len(),
                forall|k: int| 0 <= k < i ==> (#[trigger] self.transform_info@[k]).0@
                    != transform_id@,
            decreases self.transform_info@.len() - i,
        {
            if &self.transform_info[i].0 == transform_id {
                proof {
                    lemma_spec_transform_info(self.transform_info@, transform_id@, i as int);
                }
                return self.transform_info[i].1;
            }
            i = i + 1;
        }
        proof {
            lemma_spec_transform_info_absent(self.transform_info@, transform_id@);
        }
        crate::transform_info::TransformInfo {
            interpolation_method: crate::transform_info::InterpolationMethod::Step,
            extrapolation_method: crate::transform_info::ExtrapolationMethod::Constant,
        }
    }

    /// The interpolation method for a transform identifier, the default when
    /// none is stored.
    pub fn get_interpolation_method(&self, transform_id: &TransformId) -> (r:
        crate::transform_info::InterpolationMethod)
        requires
            self.wf(),
        ensures
            r == spec_transform_info(self.transform_info@, transform_id@).interpolation_method,
    {
        self.transform_info_of(transform_id).interpolation_method
    }

    /// The extrapolation method for a transform identifier, the default when
    /// none is stored.
    pub fn get_extrapolation_method(&self, transform_id: &TransformId) -> (r:
        crate::transform_info::ExtrapolationMethod)
        requires
            self.wf(),
        ensures
            r == spec_transform_info(self.transform_info@, transform_id@).extrapolation_method,
    {
        self.transform_info_of(transform_id).extrapolation_method
    }

    /// Stores the interpolation method for a transform identifier, keeping
    /// its extrapolation method.
    #[verifier::loop_isolation(false)]
    pub fn set_interpolation_method(
        &mut self,
        transform_id: TransformId,
        method: crate::transform_info::InterpolationMethod,
    )
        requires
            old(self).wf(),
            transform_id.wf(),
        ensures
            final(self).wf(),
            spec_transform_info(final(self).transform_info@, transform_id@)
                == (crate::transform_info::TransformInfo {
                interpolation_method: method,
                extrapolation_method: spec_transform_info(
                    old(self).transform_info@,
                    transform_id@,
                ).extrapolation_method,
            }),
            forall|t2: (Seq<char>, Seq<char>)|
                t2 != transform_id@ ==> #[trigger] spec_transform_info(
                    final(self).transform_info@,
                    t2,
                ) == spec_transform_info(old(self).transform_info@, t2),
            final(self).transforms == old(self).transforms,
            final(self).frame_info == old(self).frame_info,
            final(self).channel_info == old(self).channel_info,
    {
        let current = self.transform_info_of(&transform_id);
        let updated = crate::transform_info::TransformInfo {
            interpolation_method: method,
            extrapolation_method: current.extrapolation_method,
        };
        self.store_transform_info(transform_id, updated);
    }

    /// Stores the extrapolation method for a transform identifier, keeping
    /// its interpolation method.
    #[verifier::loop_isolation(false)]
    pub fn set_extrapolation_method(
        &mut self,
        transform_id: TransformId,
        method: crate::transform_info::ExtrapolationMethod,
    )
        requires
            old(self).wf(),
            transform_id.wf(),
        ensures
            final(self).wf(),
            spec_transform_info(final(self).transform_info@, transform_id@)
                == (crate::transform_info::TransformInfo {
                interpolation_method: spec_transform_info(
                    old(self).transform_info@,
                    transform_id@,
                ).interpolation_method,
                extrapolation_method: method,
            }),
            forall|t2: (Seq<char>, Seq<char>)|
                t2 != transform_id@ ==> #[trigger] spec_transform_info(
                    final(self).transform_info@,
                    t2,
                ) == spec_transform_info(old(self).transform_info@, t2),
            final(self).transforms == old(self).transforms,
            final(self).frame_info == old(self).frame_info,
            final(self).channel_info == old(self).channel_info,
    {
        let current = self.transform_info_of(&transform_id);
        let updated = crate::transform_info::TransformInfo {
            interpolation_method: current.interpolation_method,
            extrapolation_method: method,
        };
        self.store_transform_info(transform_id, updated);
    }

    /// Stores the policies for a transform identifier, replacing any entry.
    #[verifier::loop_isolation(false)]
    fn store_transform_info(
        &mut self,
        transform_id: TransformId,
        info: crate::transform_info::TransformInfo,
    )
        requires
            old(self).wf(),
            transform_id.wf(),
        ensures
            final(self).wf(),
            spec_transform_info(final(self).transform_info@, transform_id@) == info,
            forall|t2: (Seq<char>, Seq<char>)|
                t2 != transform_id@ ==> #[trigger] spec_transform_info(
                    final(self).transform_info@,
                    t2,
                ) == spec_transform_info(old(self).transform_info@, t2),
            final(self).transforms == old(self).transforms,
            final(self).frame_info == old(self).frame_info,
            final(self).channel_info == old(self).channel_info,
    {
        let ghost pre = self.transform_info@;
        let mut i: usize = 0;
        while i < self.transform_info.len()
            invariant
                0 <= i <= self.transform_info@.len(),
                self.transform_info@ == pre,
                self.transforms == old(self).transforms,
                self.frame_info == old(self).frame_info,
                self.channel_info == old(self).channel_info,
                forall|k: int| 0 <= k < i ==> (#[trigger] pre[k]).0@ != transform_id@,
            decreases self.transform_info@.len() - i,
        {
            if &self.transform_info[i].0 == &transform_id {
                self.transform_info.set(i, (transform_id, info));
                proof {
                    assert(self.transform_info@ == pre.update(
                        i as int,
                        self.transform_info@[i as int],
                    ));
                    assert(self.transform_info@[i as int].0@ == pre[i as int].0@);
                    assert forall|a: int, b: int|
                        0 <= a < b < self.transform_info@.len() implies (
                    #[trigger] self.transform_info@[a]).0@ != (
                    #[trigger] self.transform_info@[b]).0@ by {
                        if a != i && b != i {
                            assert(self.transform_info@[a] == pre[a]);
                            assert(self.transform_info@[b] == pre[b]);
                        }
                    }
                    lemma_spec_transform_info(self.transform_info@, pre[i as int].0@, i as int);
                    assert forall|t2: (Seq<char>, Seq<char>)|
                        t2 != pre[i as int].0@ implies #[trigger] spec_transform_info(
                        self.transform_info@,
                        t2,
                    ) == spec_transform_info(pre, t2) by {
                        if exists|k: int| 0 <= k < pre.len() && (#[trigger] pre[k]).0@ == t2 {
                            let k = choose|k: int|
                                0 <= k < pre.len() && (#[trigger] pre[k]).0@ == t2;
                            assert(self.transform_info@[k] == pre[k]);
                            lemma_spec_transform_info(self.transform_info@, t2, k);
                            lemma_spec_transform_info(pre, t2, k);
                        } else {
                            assert(forall|k: int|
                                0 <= k < self.transform_info@.len() ==> (
                                #[trigger] self.transform_info@[k]).0@ != t2) by {
                                assert forall|k: int|
                                    0 <= k < self.transform_info@.len() implies (
                                #[trigger] self.transform_info@[k]).0@ != t2 by {
                                    if k != i {
                                        assert(self.transform_info@[k] == pre[k]);
                                    }
                                }
                            }
                            lemma_spec_transform_info_absent(self.transform_info@, t2);
                            lemma_spec_transform_info_absent(pre, t2);
                        }
                    }
                }
                return ;
            }
            i = i + 1;
        }
        self.transform_info.push((transform_id, info));
        proof {
            let n = self.transform_info@.len();
            assert(self.transform_info@ == pre.push(self.transform_info@[n - 1]));
            assert(self.transform_info@[n - 1].0@ == transform_id@);
            assert forall|a: int, b: int|
                0 <= a < b < self.transform_info@.len() implies (
            #[trigger] self.transform_info@[a]).0@ != (
            #[trigger] self.transform_info@[b]).0@ by {
                if b < n - 1 {
                    assert(self.transform_info@[a] == pre[a]);
                    assert(self.transform_info@[b] == pre[b]);
                } else {
                    assert(self.transform_info@[a] == pre[a]);
                    assert(pre[a].0@ != transform_id@);
                }
            }
            lemma_spec_transform_info(self.transform_info@, transform_id@, n - 1);
            assert forall|t2: (Seq<char>, Seq<char>)|
                t2 != transform_id@ implies #[trigger] spec_transform_info(
                self.transform_info@,
                t2,
            ) == spec_transform_info(pre, t2) by {
                if exists|k: int| 0 <= k < pre.len() && (#[trigger] pre[k]).0@ == t2 {
                    let k = choose|k: int| 0 <= k < pre.len() && (#[trigger] pre[k]).0@ == t2;
                    assert(self.transform_info@[k] == pre[k]);
                    lemma_spec_transform_info(self.transform_info@, t2, k);
                    lemma_spec_transform_info(pre, t2, k);
                } else {
                    assert forall|k: int|
                        0 <= k < self.transform_info@.len() implies (
                    #[trigger] self.transform_info@[k]).0@ != t2 by {
                        if k < n - 1 {
                            assert(self.transform_info@[k] == pre[k]);
                        }
                    }
                    lemma_spec_transform_info_absent(self.transform_info@, t2);
                    lemma_spec_transform_info_absent(pre, t2);
                }
            }
        }
    }
}

} // verus!

verus! {

/// Whether a channel passes the selection: any channel when none are named,
/// else one of the named ones.
pub open spec fn sel_ok(cs: Option<Seq<Seq<char>>>, c: Seq<char>) -> bool {
    match cs {
        Option::None => true,
        Option::Some(l) => l.contains(c),
    }
}

/// Whether a selected channel supplies the transform identifier.
pub open spec fn supplies_sel(
    rf: ReferenceFrames,
    cs: Option<Seq<Seq<char>>>,
    c: Seq<char>,
    t: (Seq<char>, Seq<char>),
) -> bool {
    channel_supplies(rf.transforms@, c, t) && sel_ok(cs, c)
}

/// The channel a restricted query uses: among the selected channels
/// supplying the identifier, the one with the highest priority, ties broken
/// towards the lexicographically least identifier.
pub open spec fn is_best_sel(
    rf: ReferenceFrames,
    cs: Option<Seq<Seq<char>>>,
    t: (Seq<char>, Seq<char>),
    c: Seq<char>,
) -> bool {
    &&& supplies_sel(rf, cs, c, t)
    &&& forall|c2: Seq<char>|
        #![trigger supplies_sel(rf, cs, c2, t)]
        supplies_sel(rf, cs, c2, t) ==> spec_priority(rf.channel_info@, c2) < spec_priority(
            rf.channel_info@,
            c,
        ) || (spec_priority(rf.channel_info@, c2) == spec_priority(rf.channel_info@, c) && lex_le(
            c,
            c2,
        ))
}

/// The views of an optional channel selection.
pub open spec fn sel_views(cs: Option<Vec<ChannelId>>) -> Option<Seq<Seq<char>>> {
    match cs {
        Option::None => Option::None,
        Option::Some(l) => Option::Some(l@.map_values(|x: ChannelId| x@)),
    }
}

/// Whether a weight is the evaluation of the winning channel's samples under
/// the stored policies at the optional instant.
pub open spec fn weight_matches(
    rf: ReferenceFrames,
    topt: Option<Time>,
    tid: (Seq<char>, Seq<char>),
    c: Seq<char>,
    w: crate::transform::TransformEval,
) -> bool {
    let samples = samples_of(rf.transforms@, (c, tid));
    let info = spec_transform_info(rf.transform_info@, tid);
    match topt {
        Option::Some(t) => w == crate::interpolation::eval_spec(
            samples,
            info.interpolation_method,
            info.extrapolation_method,
            t.as_nanos(),
        ),
        Option::None => w == crate::transform::TransformEval::Exact(samples[0].transform),
    }
}

/// Whether some winning channel justifies the weight stored under a
/// transform identifier.
pub open spec fn picked_ok(
    rf: ReferenceFrames,
    cs: Option<Seq<Seq<char>>>,
    topt: Option<Time>,
    tidv: (Seq<char>, Seq<char>),
    w: crate::transform::TransformEval,
) -> bool {
    exists|c: Seq<char>| is_best_sel(rf, cs, tidv, c) && weight_matches(rf, topt, tidv, c, w)
}

/// A character is its code point.
proof fn lemma_char_code_injective(x: char, y: char)
    requires
        x as u32 == y as u32,
    ensures
        x == y,
{
}

/// The lexicographic order is antisymmetric.
#[verifier::spinoff_prover]
proof fn lemma_lex_antisym(a: Seq<char>, b: Seq<char>)
    requires
        lex_le(a, b),
        lex_le(b, a),
    ensures
        a == b,
    decreases a.len(),
{
    if a.len() == 0 {
        assert(b.len() == 0);
        assert(a =~= b);
    } else {
        assert(b.len() > 0);
        let x = a[0];
        let y = b[0];
        assert((x as u32) == (y as u32)) by {
            if (x as u32) != (y as u32) {
                assert(lex_le(a, b) == ((x as u32) < (y as u32)));
                assert(lex_le(b, a) == ((y as u32) < (x as u32)));
            }
        }
        lemma_char_code_injective(x, y);
        assert(x == y);
        lemma_lex_antisym(a.drop_first(), b.drop_first());
        assert(a =~= b) by {
            assert forall|i: int| 0 <= i < a.len() implies a[i] == b[i] by {
                if i > 0 {
                    assert(a.drop_first()[i - 1] == a[i]);
                    assert(b.drop_first()[i - 1] == b[i]);
                }
            }
        }
    }
}

/// One channel wins a restricted query.
pub proof fn lemma_best_sel_unique(
    rf: ReferenceFrames,
    cs: Option<Seq<Seq<char>>>,
    t: (Seq<char>, Seq<char>),
    c1: Seq<char>,
    c2: Seq<char>,
)
    requires
        is_best_sel(rf, cs, t, c1),
        is_best_sel(rf, cs, t, c2),
    ensures
        c1 == c2,
{
    assert(supplies_sel(rf, cs, c1, t));
    assert(supplies_sel(rf, cs, c2, t));
    lemma_lex_antisym(c1, c2);
}

/// No channel selection, or a non-empty one.
pub open spec fn sel_nonempty(cs: Option<Seq<Seq<char>>>) -> bool {
    !(cs matches Some(l) && l.len() == 0)
}

/// A sample sequence evaluable at an optional instant.
pub open spec fn eval_ok_at(s: Seq<TimedTransform>, topt: Option<Time>) -> bool {
    s.len() >= 1 && (topt is Some || crate::interpolation::all_same_transform(s))
}

/// The winning channel of a transform identifier exists and its samples are
/// evaluable at the instant.
pub open spec fn best_evaluable(
    rf: ReferenceFrames,
    cs: Option<Seq<Seq<char>>>,
    topt: Option<Time>,
    tidv: (Seq<char>, Seq<char>),
) -> bool {
    exists|c: Seq<char>|
        is_best_sel(rf, cs, tidv, c) && eval_ok_at(samples_of(rf.transforms@, (c, tidv)), topt)
}

/// Evaluates a sample sequence at an optional instant: without an instant
/// only a sequence sharing one transform can be evaluated.
fn evaluate_samples_opt(
    samples: &Vec<TimedTransform>,
    interpolation: crate::transform_info::InterpolationMethod,
    extrapolation: crate::transform_info::ExtrapolationMethod,
    timestamp: &Option<Time>,
) -> (r: Result<crate::transform::TransformEval, Error>)
    requires
        times_wf(samples@),
        strictly_sorted(samples@),
        timestamp matches Some(t) ==> t.wf(),
    ensures
        r is Ok <==> samples@.len() >= 1 && (timestamp is Some
            || crate::interpolation::all_same_transform(samples@)),
        r matches Ok(ev) ==> (match *timestamp {
            Option::Some(t) => ev == crate::interpolation::eval_spec(
                samples@,
                interpolation,
                extrapolation,
                t.as_nanos(),
            ),
            Option::None => ev == crate::transform::TransformEval::Exact(samples@[0].transform),
        }),
        r matches Err(e) ==> (samples@.len() == 0 <==> e matches Error::NoTransforms()) && (
        samples@.len() > 0 <==> e matches Error::MissingTimestamp()),
    decreases samples@.len(),
{
    if samples.len() == 0 {
        return Err(Error::NoTransforms());
    }
    let mut all_same = true;
    let mut k: usize = 0;
    let n = samples.len();
    while k < n
        invariant
            0 <= k <= n,
            n == samples@.len(),
            all_same == (forall|i: int| 0 <= i < k ==> #[trigger] samples@[i].transform
                == samples@[0].transform),
        decreases n - k,
    {
        if !(samples[k].transform == samples[0].transform) {
            all_same = false;
            assert(!(samples@[k as int].transform == samples@[0].transform));
            k = n;
        } else {
            k = k + 1;
        }
    }
    if all_same {
        proof {
            match *timestamp {
                Option::Some(t) => {
                    crate::interpolation::lemma_static_fast_path(
                        samples@,
                        interpolation,
                        extrapolation,
                        t.as_nanos(),
                    );
                },
                Option::None => {},
            }
        }
        return Ok(crate::transform::TransformEval::Exact(samples[0].transform));
    }
    match timestamp {
        Some(t) => Ok(
            crate::interpolation::interpolate_samples(samples, interpolation, extrapolation, t),
        ),
        None => Err(Error::MissingTimestamp()),
    }
}

impl ReferenceFrames {
    /// Evaluates every entry at one instant: the multi-channel snapshot.
    #[verifier::loop_isolation(false)]
    pub fn get_timed_subset(&self, timestamp: &Time) -> (r: Result<
        Vec<(ChannelId, TransformId, crate::transform::TransformEval)>,
        Error,
    >)
        requires
            self.wf(),
            timestamp.wf(),
        ensures
            r is Ok <==> forall|i: int| 0 <= i < self.transforms@.len() ==> (
            #[trigger] self.transforms@[i]).transforms@.len() >= 1,
            r matches Err(e) ==> e matches Error::NoTransforms(),
            r matches Ok(out) ==> {
                &&& out@.len() == self.transforms@.len()
                &&& forall|k: int|
                    #![trigger out@[k]]
                    0 <= k < out@.len() ==> out@[k].0@ == self.transforms@[k].channel_id@ && out@[
                        k
                    ].1@ == self.transforms@[k].transform_id@ && out@[k].2
                        == crate::interpolation::eval_spec(
                        self.transforms@[k].transforms@,
                        spec_transform_info(
                            self.transform_info@,
                            self.transforms@[k].transform_id@,
                        ).interpolation_method,
                        spec_transform_info(
                            self.transform_info@,
                            self.transforms@[k].transform_id@,
                        ).extrapolation_method,
                        timestamp.as_nanos(),
                    )
            },
    {
        let mut out: Vec<(ChannelId, TransformId, crate::transform::TransformEval)> = Vec::new();
        let mut i: usize = 0;
        while i < self.transforms.len()
            invariant
                0 <= i <= self.transforms@.len(),
                out@.len() == i,
                forall|k: int|
                    #![trigger out@[k]]
                    0 <= k < i ==> out@[k].0@ == self.transforms@[k].channel_id@ && out@[k].1@
                        == self.transforms@[k].transform_id@ && out@[k].2
                        == crate::interpolation::eval_spec(
                        self.transforms@[k].transforms@,
                        spec_transform_info(
                            self.transform_info@,
                            self.transforms@[k].transform_id@,
                        ).interpolation_method,
                        spec_transform_info(
                            self.transform_info@,
                            self.transforms@[k].transform_id@,
                        ).extrapolation_method,
                        timestamp.as_nanos(),
                    ),
                forall|k: int| 0 <= k < i ==> (#[trigger] self.transforms@[k]).transforms@.len()
                    >= 1,
            decreases self.transforms@.len() - i,
        {
            let entry = &self.transforms[i];
            let info = self.transform_info_of(&entry.transform_id);
            let at = Some(*timestamp);
            let ev = match evaluate_samples_opt(
                &entry.transforms,
                info.interpolation_method,
                info.extrapolation_method,
                &at,
            ) {
                Ok(ev) => ev,
                Err(_) => {
                    return Err(Error::NoTransforms());
                },
            };
            out.push((entry.channel_id.clone(), entry.transform_id.clone(), ev));
            i = i + 1;
        }
        Ok(out)
    }

    /// Picks, under an optional channel selection, the entry a query uses
    /// for the transform identifier.
    #[verifier::loop_isolation(false)]
    fn select_entry_in(&self, selection: &Option<Vec<ChannelId>>, transform_id: &TransformId) -> (r:
        Option<usize>)
        requires
            self.wf(),
        ensures
            r matches Some(i) ==> i < self.transforms@.len() && self.transforms@[
                i as int
            ].transform_id@ == transform_id@ && sel_ok(
                sel_views(*selection),
                self.transforms@[i as int].channel_id@,
            ) && is_best_sel(
                *self,
                sel_views(*selection),
                transform_id@,
                self.transforms@[i as int].channel_id@,
            ),
            r is None <==> !exists|c: Seq<char>|
                supplies_sel(*self, sel_views(*selection), c, transform_id@),
    {
        let mut best: Option<usize> = None;
        let mut i: usize = 0;
        while i < self.transforms.len()
            invariant
                0 <= i <= self.transforms@.len(),
                best matches Some(bi) ==> bi < self.transforms@.len()
                    && self.transforms@[bi as int].transform_id@ == transform_id@ && sel_ok(
                    sel_views(*selection),
                    self.transforms@[bi as int].channel_id@,
                ),
                best matches Some(bi) ==> forall|k: int|
                    0 <= k < i && (#[trigger] self.transforms@[k]).transform_id@ == transform_id@
                        && sel_ok(sel_views(*selection), self.transforms@[k].channel_id@)
                        ==> spec_priority(self.channel_info@, self.transforms@[k].channel_id@)
                        < spec_priority(
                        self.channel_info@,
                        self.transforms@[bi as int].channel_id@,
                    ) || (spec_priority(self.channel_info@, self.transforms@[k].channel_id@)
                        == spec_priority(
                        self.channel_info@,
                        self.transforms@[bi as int].channel_id@,
                    ) && lex_le(
                        self.transforms@[bi as int].channel_id@,
                        self.transforms@[k].channel_id@,
                    )),
                best is None ==> forall|k: int|
                    0 <= k < i ==> !((#[trigger] self.transforms@[k]).transform_id@
                        == transform_id@ && sel_ok(
                        sel_views(*selection),
                        self.transforms@[k].channel_id@,
                    )),
            decreases self.transforms@.len() - i,
        {
            let e = &self.transforms[i];
            let selected = match selection {
                Some(list) => channel_list_contains(list, &e.channel_id),
                None => true,
            };
            if selected && &e.transform_id == transform_id {
                match best {
                    None => {
                        best = Some(i);
                        proof {
                            lemma_lex_refl(self.transforms@[i as int].channel_id@);
                        }
                    },
                    Some(bi) => {
                        let pb = self.priority_of(&self.transforms[bi].channel_id);
                        let pc = self.priority_of(&e.channel_id);
                        if pc > pb || (pc == pb && !lex_le_channels(
                            &self.transforms[bi].channel_id,
                            &e.channel_id,
                        )) {
                            proof {
                                let cb = self.transforms@[bi as int].channel_id@;
                                let ci = self.transforms@[i as int].channel_id@;
                                lemma_lex_total(cb, ci);
                                lemma_lex_refl(ci);
                                assert forall|k: int|
                                    0 <= k < i + 1 && (#[trigger] self.transforms@[
                                        k
                                    ]).transform_id@ == transform_id@ && sel_ok(
                                        sel_views(*selection),
                                        self.transforms@[k].channel_id@,
                                    ) implies spec_priority(
                                    self.channel_info@,
                                    self.transforms@[k].channel_id@,
                                ) < spec_priority(self.channel_info@, ci) || (spec_priority(
                                    self.channel_info@,
                                    self.transforms@[k].channel_id@,
                                ) == spec_priority(self.channel_info@, ci) && lex_le(
                                    ci,
                                    self.transforms@[k].channel_id@,
                                )) by {
                                    if k < i {
                                        let ck = self.transforms@[k].channel_id@;
                                        if spec_priority(self.channel_info@, ck) == spec_priority(
                                            self.channel_info@,
                                            ci,
                                        ) && lex_le(cb, ck) && lex_le(ci, cb) {
                                            lemma_lex_trans(ci, cb, ck);
                                        }
                                    }
                                }
                            }
                            best = Some(i);
                        } else {
                            proof {
                                assert forall|k: int|
                                    0 <= k < i + 1 && (#[trigger] self.transforms@[
                                        k
                                    ]).transform_id@ == transform_id@ && sel_ok(
                                        sel_views(*selection),
                                        self.transforms@[k].channel_id@,
                                    ) implies spec_priority(
                                    self.channel_info@,
                                    self.transforms@[k].channel_id@,
                                ) < spec_priority(
                                    self.channel_info@,
                                    self.transforms@[bi as int].channel_id@,
                                ) || (spec_priority(
                                    self.channel_info@,
                                    self.transforms@[k].channel_id@,
                                ) == spec_priority(
                                    self.channel_info@,
                                    self.transforms@[bi as int].channel_id@,
                                ) && lex_le(
                                    self.transforms@[bi as int].channel_id@,
                                    self.transforms@[k].channel_id@,
                                )) by {}
                            }
                        }
                    },
                }
            } else {
                proof {
                    if selection matches Some(list) {
                        if !selected {
                            assert(!sel_ok(
                                sel_views(*selection),
                                self.transforms@[i as int].channel_id@,
                            ));
                        }
                    }
                }
            }
            i = i + 1;
        }
        match best {
            Some(bi) => {
                proof {
                    assert(channel_supplies(
                        self.transforms@,
                        self.transforms@[bi as int].channel_id@,
                        transform_id@,
                    )) by {
                        assert(self.transforms@[bi as int].key() == (
                            self.transforms@[bi as int].channel_id@,
                            transform_id@,
                        ));
                    }
                    assert forall|c2: Seq<char>|
                        supplies_sel(
                            *self,
                            sel_views(*selection),
                            c2,
                            transform_id@,
                        ) implies spec_priority(self.channel_info@, c2) < spec_priority(
                        self.channel_info@,
                        self.transforms@[bi as int].channel_id@,
                    ) || (spec_priority(self.channel_info@, c2) == spec_priority(
                        self.channel_info@,
                        self.transforms@[bi as int].channel_id@,
                    ) && lex_le(self.transforms@[bi as int].channel_id@, c2)) by {
                        let k = choose|k: int|
                            0 <= k < self.transforms@.len() && (#[trigger] self.transforms@[
                                k
                            ]).key() == (c2, transform_id@);
                    }
                }
                Some(bi)
            },
            None => {
                proof {
                    if exists|c: Seq<char>|
                        supplies_sel(*self, sel_views(*selection), c, transform_id@) {
                        let c = choose|c: Seq<char>|
                            supplies_sel(*self, sel_views(*selection), c, transform_id@);
                        let k = choose|k: int|
                            0 <= k < self.transforms@.len() && (#[trigger] self.transforms@[
                                k
                            ]).key() == (c, transform_id@);
                        assert(false);
                    }
                }
                None
            },
        }
    }

    /// Derives the single-transform-per-identifier graph of a query: for
    /// every transform identifier a selected channel supplies, the winning
    /// channel's samples are evaluated at the instant, and the results form
    /// an isometry graph. An empty selection is rejected; entries needing an
    /// instant fail without one.
    #[verifier::loop_isolation(false)]
    #[verifier::rlimit(60)]
    #[verifier::spinoff_prover]
    pub fn derive_transform_graph(
        &self,
        selected_channel_ids: &Option<Vec<ChannelId>>,
        selected_timestamp: &Option<Time>,
    ) -> (r: Result<crate::isometry_graph::IsometryGraph, Error>)
        requires
            self.wf(),
            self.transforms@.len() <= 0x7FFF_FFFF,
            selected_timestamp matches Some(t) ==> t.wf(),
        ensures
            (selected_channel_ids matches Some(l) && l@.len() == 0) ==> (r matches Err(e) && e
                matches Error::NoChannels()),
            (r matches Err(e) && e matches Error::NoChannels()) ==> (selected_channel_ids
                matches Some(l) && l@.len() == 0),
            r is Ok <==> (sel_nonempty(sel_views(*selected_channel_ids)) && (exists|k: int|
                0 <= k < self.transforms@.len() && sel_ok(
                    sel_views(*selected_channel_ids),
                    (#[trigger] self.transforms@[k]).channel_id@,
                )) && (forall|k: int|
                0 <= k < self.transforms@.len() && sel_ok(
                    sel_views(*selected_channel_ids),
                    (#[trigger] self.transforms@[k]).channel_id@,
                ) ==> best_evaluable(
                    *self,
                    sel_views(*selected_channel_ids),
                    *selected_timestamp,
                    self.transforms@[k].transform_id@,
                ))),
            r matches Ok(g) ==> {
                &&& g.wf()
                &&& forall|k: int|
                    #![trigger g.ids@[k]]
                    0 <= k < g.ids@.len() ==> picked_ok(
                        *self,
                        sel_views(*selected_channel_ids),
                        *selected_timestamp,
                        g.ids@[k]@,
                        g.weights@[k],
                    )
                &&& forall|k: int|
                    0 <= k < self.transforms@.len() && sel_ok(
                        sel_views(*selected_channel_ids),
                        (#[trigger] self.transforms@[k]).channel_id@,
                    ) ==> crate::isometry_graph::contains_id_view(
                        g.ids@,
                        self.transforms@[k].transform_id@,
                    )
            },
    {
        match selected_channel_ids {
            Some(list) => {
                if list.len() == 0 {
                    return Err(Error::NoChannels());
                }
            },
            None => {},
        }
        let mut picked: Vec<(TransformId, crate::transform::TransformEval)> = Vec::new();
        let mut i: usize = 0;
        while i < self.transforms.len()
            invariant
                0 <= i <= self.transforms@.len(),
                picked@.len() <= i,
                forall|a: int, b: int| 0 <= a < b < picked@.len() ==> (#[trigger] picked@[a]).0@
                    != (#[trigger] picked@[b]).0@,
                forall|k: int| 0 <= k < picked@.len() ==> (#[trigger] picked@[k]).0.wf(),
                forall|k: int|
                    0 <= k < picked@.len() ==> picked_ok(
                        *self,
                        sel_views(*selected_channel_ids),
                        *selected_timestamp,
                        (#[trigger] picked@[k]).0@,
                        picked@[k].1,
                    ),
                forall|m: int|
                    0 <= m < picked@.len() ==> best_evaluable(
                        *self,
                        sel_views(*selected_channel_ids),
                        *selected_timestamp,
                        (#[trigger] picked@[m]).0@,
                    ),
                forall|k: int|
                    0 <= k < i && sel_ok(
                        sel_views(*selected_channel_ids),
                        (#[trigger] self.transforms@[k]).channel_id@,
                    ) ==> exists|m: int|
                        0 <= m < picked@.len() && (#[trigger] picked@[m]).0@ == self.transforms@[
                            k
                        ].transform_id@,
            decreases self.transforms@.len() - i,
        {
            let tid = &self.transforms[i].transform_id;
            let mut seen = false;
            let mut j: usize = 0;
            while j < picked.len()
                invariant
                    0 <= j <= picked@.len(),
                    !seen ==> forall|m: int| 0 <= m < j ==> (#[trigger] picked@[m]).0@ != tid@,
                    seen ==> exists|m: int| 0 <= m < picked@.len() && (#[trigger] picked@[m]).0@
                        == tid@,
                decreases picked@.len() - j + if seen {
                    0int
                } else {
                    1int
                },
            {
                if seen {
                    j = picked.len();
                } else if &picked[j].0 == tid {
                    seen = true;
                } else {
                    j = j + 1;
                }
            }
            if !seen {
                match self.select_entry_in(selected_channel_ids, tid) {
                    Some(ei) => {
                        let entry = &self.transforms[ei];
                        let info = self.transform_info_of(tid);
                        proof {
                            lemma_key_index(self.transforms@, ei as int);
                        }
                        let ev = match evaluate_samples_opt(
                            &entry.transforms,
                            info.interpolation_method,
                            info.extrapolation_method,
                            selected_timestamp,
                        ) {
                            Ok(ev) => ev,
                            Err(e) => {
                                proof {
                                    let csv = sel_views(*selected_channel_ids);
                                    let cbest = self.transforms@[ei as int].channel_id@;
                                    assert(!eval_ok_at(
                                        samples_of(self.transforms@, (cbest, tid@)),
                                        *selected_timestamp,
                                    ));
                                    assert(!best_evaluable(
                                        *self,
                                        csv,
                                        *selected_timestamp,
                                        tid@,
                                    )) by {
                                        if best_evaluable(*self, csv, *selected_timestamp, tid@) {
                                            let cw = choose|cw: Seq<char>|
                                                is_best_sel(*self, csv, tid@, cw) && eval_ok_at(
                                                    samples_of(self.transforms@, (cw, tid@)),
                                                    *selected_timestamp,
                                                );
                                            lemma_best_sel_unique(*self, csv, tid@, cw, cbest);
                                        }
                                    }
                                    // a selected entry supplies this identifier
                                    assert(channel_supplies(self.transforms@, cbest, tid@));
                                    let km = choose|km: int|
                                        0 <= km < self.transforms@.len() && (
                                        #[trigger] self.transforms@[km]).key() == (cbest, tid@);
                                    assert(sel_ok(csv, self.transforms@[km].channel_id@));
                                }
                                return Err(e);
                            },
                        };
                        proof {
                            assert(samples_of(
                                self.transforms@,
                                (self.transforms@[ei as int].channel_id@, tid@),
                            ) == self.transforms@[ei as int].transforms@);
                        }
                        let ghost pre = picked@;
                        let ghost cw = self.transforms@[ei as int].channel_id@;
                        picked.push((tid.clone(), ev));
                        proof {
                            assert forall|a: int, b: int|
                                0 <= a < b < picked@.len() implies (#[trigger] picked@[a]).0@
                                != (#[trigger] picked@[b]).0@ by {
                                if b == picked@.len() - 1 {
                                    assert(picked@[a] == pre[a]);
                                }
                            }
                            assert(weight_matches(
                                *self,
                                *selected_timestamp,
                                picked@[picked@.len() - 1].0@,
                                cw,
                                picked@[picked@.len() - 1].1,
                            ));
                            assert(picked_ok(
                                *self,
                                sel_views(*selected_channel_ids),
                                *selected_timestamp,
                                picked@[picked@.len() - 1].0@,
                                picked@[picked@.len() - 1].1,
                            ));
                            assert(forall|k: int|
                                0 <= k < picked@.len() - 1 ==> picked@[k] == #[trigger] pre[k]);
                            assert(best_evaluable(
                                *self,
                                sel_views(*selected_channel_ids),
                                *selected_timestamp,
                                picked@[picked@.len() - 1].0@,
                            )) by {
                                assert(is_best_sel(
                                    *self,
                                    sel_views(*selected_channel_ids),
                                    tid@,
                                    cw,
                                ) && eval_ok_at(
                                    samples_of(self.transforms@, (cw, tid@)),
                                    *selected_timestamp,
                                ));
                            }
                        }
                    },
                    None => {
                        proof {
                            if sel_ok(
                                sel_views(*selected_channel_ids),
                                self.transforms@[i as int].channel_id@,
                            ) {
                                assert(self.transforms@[i as int].key() == (
                                    self.transforms@[i as int].channel_id@,
                                    tid@,
                                ));
                                assert(supplies_sel(
                                    *self,
                                    sel_views(*selected_channel_ids),
                                    self.transforms@[i as int].channel_id@,
                                    tid@,
                                ));
                                assert(false);
                            }
                        }
                    },
                }
            }
            proof {
                assert forall|k: int|
                    0 <= k < i + 1 && sel_ok(
                        sel_views(*selected_channel_ids),
                        (#[trigger] self.transforms@[k]).channel_id@,
                    ) implies exists|m: int|
                    0 <= m < picked@.len() && (#[trigger] picked@[m]).0@ == self.transforms@[
                        k
                    ].transform_id@ by {
                    if k == i {
                        if self.transforms@[k].transform_id@ == tid@ {
                        }
                    }
                }
            }
            i = i + 1;
        }
        let ghost chosen = picked@;
        let ghost csv = sel_views(*selected_channel_ids);
        match crate::isometry_graph::IsometryGraph::new(picked) {
            Ok(g) => {
                proof {
                    assert forall|k: int|
                        0 <= k < g.ids@.len() implies picked_ok(
                        *self,
                        csv,
                        *selected_timestamp,
                        (#[trigger] g.ids@[k])@,
                        g.weights@[k],
                    ) by {
                        assert(g.ids@.len() == chosen.len());
                        assert(g.ids@[k]@ == chosen[k].0@);
                        assert(g.weights@[k] == chosen[k].1);
                        assert(picked_ok(
                            *self,
                            csv,
                            *selected_timestamp,
                            chosen[k].0@,
                            chosen[k].1,
                        ));
                    }
                    // every identifier a selected channel supplies is present
                    assert forall|k: int|
                        0 <= k < self.transforms@.len() && sel_ok(
                            csv,
                            (#[trigger] self.transforms@[k]).channel_id@,
                        ) implies crate::isometry_graph::contains_id_view(
                        g.ids@,
                        self.transforms@[k].transform_id@,
                    ) by {
                        let m = choose|m: int|
                            0 <= m < chosen.len() && (#[trigger] chosen[m]).0@
                                == self.transforms@[k].transform_id@;
                        assert(g.ids@[m]@ == chosen[m].0@);
                    }
                    // the success conditions hold: some selected entry exists,
                    // and each selected identifier's winning channel evaluates
                    assert(chosen.len() > 0);
                    assert(picked_ok(
                        *self,
                        csv,
                        *selected_timestamp,
                        chosen[0].0@,
                        chosen[0].1,
                    ));
                    let c0 = choose|c0: Seq<char>|
                        is_best_sel(*self, csv, chosen[0].0@, c0) && weight_matches(
                            *self,
                            *selected_timestamp,
                            chosen[0].0@,
                            c0,
                            chosen[0].1,
                        );
                    assert(channel_supplies(self.transforms@, c0, chosen[0].0@));
                    let k0 = choose|k0: int|
                        0 <= k0 < self.transforms@.len() && (#[trigger] self.transforms@[
                            k0
                        ]).key() == (c0, chosen[0].0@);
                    assert(sel_ok(csv, self.transforms@[k0].channel_id@));
                }
                Ok(g)
            },
            Err(e) => {
                proof {
                    assert(chosen.len() == 0);
                    if exists|k: int|
                        0 <= k < self.transforms@.len() && sel_ok(
                            csv,
                            (#[trigger] self.transforms@[k]).channel_id@,
                        ) {
                        let k = choose|k: int|
                            0 <= k < self.transforms@.len() && sel_ok(
                                csv,
                                (#[trigger] self.transforms@[k]).channel_id@,
                            );
                        assert(false);
                    }
                }
                Err(e)
            },
        }
    }
}

} // verus!

verus! {

impl ReferenceFrames {
    /// Stores a channel's sample sequence for a transform identifier,
    /// replacing any entry under that key, and stores the given channel and
    /// transform metadata the same way. An empty sequence is rejected, as is
    /// one not strictly ascending in time.
    #[verifier::loop_isolation(false)]
    pub fn add_transforms(
        &mut self,
        channel_id: ChannelId,
        transform_id: TransformId,
        transforms: Vec<TimedTransform>,
        channel_info: Option<ChannelInfo>,
        transform_info: Option<crate::transform_info::TransformInfo>,
    ) -> (r: Result<(), Error>)
        requires
            old(self).wf(),
            transform_id.wf(),
            times_wf(transforms@),
        ensures
            transforms@.len() == 0 <==> (r matches Err(e) && e matches Error::NoTransforms()),
            r is Ok <==> transforms@.len() >= 1 && strictly_sorted(transforms@),
            r is Err ==> *final(self) == *old(self),
            r is Ok ==> {
                &&& final(self).wf()
                &&& has_key(final(self).transforms@, (channel_id@, transform_id@))
                &&& samples_of(final(self).transforms@, (channel_id@, transform_id@))
                    == transforms@
                &&& forall|key: (Seq<char>, (Seq<char>, Seq<char>))|
                    key != (channel_id@, transform_id@) ==> (#[trigger] has_key(
                        final(self).transforms@,
                        key,
                    ) == has_key(old(self).transforms@, key))
                &&& (channel_info matches Some(ci) ==> spec_priority(
                    final(self).channel_info@,
                    channel_id@,
                ) == (match ci.priority {
                    Option::Some(p) => p as int,
                    Option::None => 0,
                }))
                &&& (transform_info matches Some(ti) ==> spec_transform_info(
                    final(self).transform_info@,
                    transform_id@,
                ) == ti)
            },
    {
        if transforms.len() == 0 {
            return Err(Error::NoTransforms());
        }
        let n = transforms.len();
        let mut k: usize = 0;
        while n > 0 && k < n - 1
            invariant
                0 <= k < n || n == 0,
                n == transforms@.len(),
                forall|m: int| 0 <= m < k ==> (#[trigger] transforms@[m]).timestamp.as_nanos()
                    < transforms@[m + 1].timestamp.as_nanos(),
            decreases n - k,
        {
            if !transforms[k].timestamp.lt(&transforms[k + 1].timestamp) {
                proof {
                    assert(!strictly_sorted(transforms@));
                }
                return Err(Error::TransformsNotSorted { transform_id });
            }
            k = k + 1;
        }
        proof {
            assert forall|a: int, b: int|
                0 <= a < b < transforms@.len() implies (#[trigger] transforms@[
                a
            ]).timestamp.as_nanos() < (#[trigger] transforms@[b]).timestamp.as_nanos() by {
                lemma_adjacent_implies_sorted(transforms@, a, b);
            }
        }
        self.store_entry(channel_id.clone(), transform_id.clone(), transforms);
        match channel_info {
            Some(ci) => {
                self.store_channel_info(channel_id, ci);
            },
            None => {},
        }
        match transform_info {
            Some(ti) => {
                self.store_transform_info(transform_id, ti);
            },
            None => {},
        }
        Ok(())
    }

    /// Extends a channel's sample sequence for a transform identifier: the
    /// given samples join any already stored, sorted together by time. An
    /// empty addition is rejected.
    #[verifier::loop_isolation(false)]
    pub fn extend_transforms(
        &mut self,
        channel_id: ChannelId,
        transform_id: TransformId,
        transforms: Vec<TimedTransform>,
    ) -> (r: Result<(), Error>)
        requires
            old(self).wf(),
            transform_id.wf(),
            times_wf(transforms@),
        ensures
            transforms@.len() == 0 <==> (r matches Err(e) && e matches Error::NoTransforms()),
            r is Err ==> *final(self) == *old(self),
            r is Ok <==> transforms@.len() >= 1 && !crate::transform_edge::has_duplicate_times(
                (if has_key(old(self).transforms@, (channel_id@, transform_id@)) {
                    samples_of(old(self).transforms@, (channel_id@, transform_id@))
                } else {
                    Seq::<TimedTransform>::empty()
                }) + transforms@,
            ),
            r matches Ok(_) ==> {
                &&& final(self).wf()
                &&& has_key(final(self).transforms@, (channel_id@, transform_id@))
                &&& samples_of(
                    final(self).transforms@,
                    (channel_id@, transform_id@),
                ).to_multiset() == (if has_key(
                    old(self).transforms@,
                    (channel_id@, transform_id@),
                ) {
                    samples_of(old(self).transforms@, (channel_id@, transform_id@)).to_multiset()
                } else {
                    Seq::<TimedTransform>::empty().to_multiset()
                }).add(transforms@.to_multiset())
                &&& crate::transform_edge::sorted_by_time(
                    samples_of(final(self).transforms@, (channel_id@, transform_id@)),
                )
                &&& forall|key: (Seq<char>, (Seq<char>, Seq<char>))|
                    key != (channel_id@, transform_id@) ==> (#[trigger] has_key(
                        final(self).transforms@,
                        key,
                    ) == has_key(old(self).transforms@, key))
            },
    {
        broadcast use vstd::seq_lib::group_to_multiset_ensures;

        if transforms.len() == 0 {
            return Err(Error::NoTransforms());
        }
        let mut combined: Vec<TimedTransform> = match self.find_entry(&channel_id, &transform_id) {
            Some(i) => {
                proof {
                    lemma_key_index(self.transforms@, i as int);
                }
                self.transforms[i].transforms.clone()
            },
            None => Vec::new(),
        };
        let ghost existing = combined@;
        let mut j: usize = 0;
        while j < transforms.len()
            invariant
                0 <= j <= transforms@.len(),
                times_wf(transforms@),
                times_wf(existing),
                combined@ =~= existing + transforms@.take(j as int),
            decreases transforms@.len() - j,
        {
            combined.push(transforms[j]);
            proof {
                assert(transforms@.take(j + 1) =~= transforms@.take(j as int).push(
                    transforms@[j as int],
                ));
                assert(combined@ =~= existing + transforms@.take(j + 1));
            }
            j = j + 1;
        }
        proof {
            assert(transforms@.take(transforms@.len() as int) =~= transforms@);
            assert(times_wf(combined@)) by {
                assert(forall|m: int|
                    0 <= m < combined@.len() ==> (#[trigger] combined@[m]).timestamp.wf());
            }
            vstd::seq_lib::lemma_multiset_commutative(existing, transforms@);
        }
        let ghost union = combined@;
        let sorted = crate::transform_edge::sort_samples(combined);
        // two samples at one instant cannot stand in one channel's sequence
        let n2 = sorted.len();
        let mut k2: usize = 0;
        while n2 > 0 && k2 < n2 - 1
            invariant
                0 <= k2 < n2 || n2 == 0,
                n2 == sorted@.len(),
                times_wf(sorted@),
                crate::transform_edge::sorted_by_time(sorted@),
                sorted@.to_multiset() == union.to_multiset(),
                forall|m: int| 0 <= m < k2 ==> (#[trigger] sorted@[m]).timestamp.as_nanos()
                    < sorted@[m + 1].timestamp.as_nanos(),
            decreases n2 - k2,
        {
            if sorted[k2].timestamp.eq_time(&sorted[k2 + 1].timestamp) {
                proof {
                    let tn = sorted@[k2 + 1].timestamp.as_nanos();
                    assert(crate::transform_edge::has_duplicate_at(sorted@, tn));
                    crate::transform_edge::lemma_dup_times_multiset(sorted@, union, tn);
                    assert(crate::transform_edge::has_duplicate_times(union)) by {
                        let (i2, j2): (int, int) = choose|i2: int, j2: int|
                            0 <= i2 < j2 < union.len() && #[trigger] union[
                                i2
                            ].timestamp.as_nanos() == tn && #[trigger] union[
                                j2
                            ].timestamp.as_nanos() == tn;
                        assert(union[i2].timestamp.as_nanos() == union[j2].timestamp.as_nanos());
                    }
                }
                return Err(Error::DuplicateTimestamp(sorted[k2 + 1].timestamp));
            }
            k2 = k2 + 1;
        }
        proof {
            assert forall|a: int, b: int|
                0 <= a < b < sorted@.len() implies (#[trigger] sorted@[a]).timestamp.as_nanos()
                < (#[trigger] sorted@[b]).timestamp.as_nanos() by {
                crate::transform_edge::lemma_strict_from_adjacent(sorted@, a, b);
            }
            if crate::transform_edge::has_duplicate_times(union) {
                let (i2, j2): (int, int) = choose|i2: int, j2: int|
                    0 <= i2 < j2 < union.len() && #[trigger] union[i2].timestamp.as_nanos()
                        == #[trigger] union[j2].timestamp.as_nanos();
                let tn = union[j2].timestamp.as_nanos();
                assert(crate::transform_edge::has_duplicate_at(union, tn));
                crate::transform_edge::lemma_dup_times_multiset(union, sorted@, tn);
                let (i3, j3): (int, int) = choose|i3: int, j3: int|
                    0 <= i3 < j3 < sorted@.len() && #[trigger] sorted@[i3].timestamp.as_nanos()
                        == tn && #[trigger] sorted@[j3].timestamp.as_nanos() == tn;
                assert(sorted@[i3].timestamp.as_nanos() < sorted@[j3].timestamp.as_nanos());
            }
        }
        self.store_entry(channel_id, transform_id, sorted);
        Ok(())
    }

    /// Stores an entry under its key, replacing any entry there.
    #[verifier::loop_isolation(false)]
    fn store_entry(
        &mut self,
        channel_id: ChannelId,
        transform_id: TransformId,
        transforms: Vec<TimedTransform>,
    )
        requires
            old(self).wf(),
            transform_id.wf(),
            times_wf(transforms@),
            strictly_sorted(transforms@),
        ensures
            final(self).wf(),
            has_key(final(self).transforms@, (channel_id@, transform_id@)),
            samples_of(final(self).transforms@, (channel_id@, transform_id@)) == transforms@,
            forall|key: (Seq<char>, (Seq<char>, Seq<char>))|
                key != (channel_id@, transform_id@) ==> (#[trigger] has_key(
                    final(self).transforms@,
                    key,
                ) == has_key(old(self).transforms@, key)),
            final(self).frame_info == old(self).frame_info,
            final(self).channel_info == old(self).channel_info,
            final(self).transform_info == old(self).transform_info,
    {
        let ghost pre = self.transforms@;
        let entry = ChannelTransforms { channel_id, transform_id, transforms };
        let ghost key = entry.key();
        let mut i: usize = 0;
        while i < self.transforms.len()
            invariant
                0 <= i <= self.transforms@.len(),
                self.transforms@ == pre,
                self.frame_info == old(self).frame_info,
                self.channel_info == old(self).channel_info,
                self.transform_info == old(self).transform_info,
                forall|k: int| 0 <= k < i ==> (#[trigger] pre[k]).key() != key,
            decreases self.transforms@.len() - i,
        {
            let e = &self.transforms[i];
            if &e.channel_id == &entry.channel_id && &e.transform_id == &entry.transform_id {
                self.transforms.set(i, entry);
                proof {
                    assert(self.transforms@ == pre.update(
                        i as int,
                        self.transforms@[i as int],
                    ));
                    assert(self.transforms@[i as int].key() == key);
                    assert forall|a: int, b: int|
                        0 <= a < b < self.transforms@.len() implies (#[trigger] self.transforms@[
                        a
                    ]).key() != (#[trigger] self.transforms@[b]).key() by {
                        if a != i && b != i {
                            assert(self.transforms@[a] == pre[a]);
                            assert(self.transforms@[b] == pre[b]);
                        } else if a == i {
                            assert(self.transforms@[b] == pre[b]);
                            assert(pre[i as int].key() == key);
                        } else {
                            assert(self.transforms@[a] == pre[a]);
                            assert(pre[i as int].key() == key);
                        }
                    }
                    lemma_key_index(self.transforms@, i as int);
                    assert forall|key2: (Seq<char>, (Seq<char>, Seq<char>))|
                        key2 != key implies (#[trigger] has_key(self.transforms@, key2)
                        == has_key(pre, key2)) by {
                        if has_key(pre, key2) {
                            let k = choose|k: int|
                                0 <= k < pre.len() && (#[trigger] pre[k]).key() == key2;
                            assert(self.transforms@[k].key() == key2);
                        }
                        if has_key(self.transforms@, key2) {
                            let k = choose|k: int|
                                0 <= k < self.transforms@.len() && (
                                #[trigger] self.transforms@[k]).key() == key2;
                            assert(pre[k].key() == key2);
                        }
                    }
                }
                return ;
            }
            i = i + 1;
        }
        self.transforms.push(entry);
        proof {
            let n = self.transforms@.len();
            assert(self.transforms@ == pre.push(self.transforms@[n - 1]));
            assert(self.transforms@[n - 1].key() == key);
            assert forall|a: int, b: int|
                0 <= a < b < self.transforms@.len() implies (#[trigger] self.transforms@[
                a
            ]).key() != (#[trigger] self.transforms@[b]).key() by {
                if b < n - 1 {
                    assert(self.transforms@[a] == pre[a]);
                    assert(self.transforms@[b] == pre[b]);
                } else {
                    assert(self.transforms@[a] == pre[a]);
                }
            }
            lemma_key_index(self.transforms@, n - 1);
            assert forall|key2: (Seq<char>, (Seq<char>, Seq<char>))|
                key2 != key implies (#[trigger] has_key(self.transforms@, key2) == has_key(
                pre,
                key2,
            )) by {
                if has_key(pre, key2) {
                    let k = choose|k: int| 0 <= k < pre.len() && (#[trigger] pre[k]).key()
                        == key2;
                    assert(self.transforms@[k].key() == key2);
                }
                if has_key(self.transforms@, key2) {
                    let k = choose|k: int|
                        0 <= k < self.transforms@.len() && (#[trigger] self.transforms@[k]).key()
                            == key2;
                    if k < n - 1 {
                        assert(pre[k].key() == key2);
                    }
                }
            }
        }
    }

    /// Stores a channel's metadata, replacing any entry.
    #[verifier::loop_isolation(false)]
    fn store_channel_info(&mut self, channel_id: ChannelId, info: ChannelInfo)
        requires
            old(self).wf(),
        ensures
            final(self).wf(),
            spec_priority(final(self).channel_info@, channel_id@) == (match info.priority {
                Option::Some(p) => p as int,
                Option::None => 0,
            }),
            final(self).transforms == old(self).transforms,
            final(self).frame_info == old(self).frame_info,
            final(self).transform_info == old(self).transform_info,
    {
        let ghost pre = self.channel_info@;
        let mut i: usize = 0;
        while i < self.channel_info.len()
            invariant
                0 <= i <= self.channel_info@.len(),
                self.channel_info@ == pre,
                self.transforms == old(self).transforms,
                self.frame_info == old(self).frame_info,
                self.transform_info == old(self).transform_info,
                forall|k: int| 0 <= k < i ==> (#[trigger] pre[k]).0@ != channel_id@,
            decreases self.channel_info@.len() - i,
        {
            if &self.channel_info[i].0 == &channel_id {
                self.channel_info.set(i, (channel_id, info));
                proof {
                    assert(self.channel_info@ == pre.update(
                        i as int,
                        self.channel_info@[i as int],
                    ));
                    assert forall|a: int, b: int|
                        0 <= a < b < self.channel_info@.len() implies (
                    #[trigger] self.channel_info@[a]).0@ != (
                    #[trigger] self.channel_info@[b]).0@ by {
                        if a != i && b != i {
                            assert(self.channel_info@[a] == pre[a]);
                            assert(self.channel_info@[b] == pre[b]);
                        } else if a == i {
                            assert(self.channel_info@[b] == pre[b]);
                        } else {
                            assert(self.channel_info@[a] == pre[a]);
                        }
                    }
                    lemma_spec_priority(
                        self.channel_info@,
                        self.channel_info@[i as int].0@,
                        i as int,
                    );
                }
                return ;
            }
            i = i + 1;
        }
        self.channel_info.push((channel_id, info));
        proof {
            let n = self.channel_info@.len();
            assert(self.channel_info@ == pre.push(self.channel_info@[n - 1]));
            assert forall|a: int, b: int|
                0 <= a < b < self.channel_info@.len() implies (#[trigger] self.channel_info@[
                a
            ]).0@ != (#[trigger] self.channel_info@[b]).0@ by {
                if b < n - 1 {
                    assert(self.channel_info@[a] == pre[a]);
                    assert(self.channel_info@[b] == pre[b]);
                } else {
                    assert(self.channel_info@[a] == pre[a]);
                }
            }
            lemma_spec_priority(self.channel_info@, self.channel_info@[n - 1].0@, n - 1);
        }
    }

    /// The stored samples a query at an instant draws on: every window whose
    /// start lies at or before the instant and whose end lies after it, and
    /// the last sample once the instant has passed it; all samples when no
    /// instant is given.
    #[verifier::loop_isolation(false)]
    pub fn get_valid_transform(
        &self,
        channel_id: &ChannelId,
        transform_id: &TransformId,
        timestamp: &Option<Time>,
    ) -> (r: Result<Vec<TimedTransform>, Error>)
        requires
            self.wf(),
            timestamp matches Some(t) ==> t.wf(),
        ensures
            r is Err <==> !(exists|i: int|
                0 <= i < self.transforms@.len() && (#[trigger] self.transforms@[i]).channel_id@
                    == channel_id@) || !has_key(self.transforms@, (channel_id@, transform_id@)),
            r matches Ok(v) ==> {
                let samples = samples_of(self.transforms@, (channel_id@, transform_id@));
                match *timestamp {
                    Option::None => v@ == samples,
                    Option::Some(ts) => v@ == windows_at(samples, ts.as_nanos()),
                }
            },
    {
        if !self.contains_channel(channel_id) {
            return Err(Error::InvalidChannelId(channel_id.clone()));
        }
        let entry_index = match self.find_entry(channel_id, transform_id) {
            Some(i) => i,
            None => {
                return Err(Error::InvalidTransformId(transform_id.clone()));
            },
        };
        proof {
            lemma_key_index(self.transforms@, entry_index as int);
        }
        let samples = &self.transforms[entry_index].transforms;
        let ts = match timestamp {
            Some(t) => t,
            None => {
                return Ok(samples.clone());
            },
        };
        let ghost sv = samples@;
        let mut out: Vec<TimedTransform> = Vec::new();
        let mut i: usize = 0;
        while i < samples.len()
            invariant
                0 <= i <= sv.len(),
                samples@ == sv,
                times_wf(sv),
                ts.wf(),
                out@ =~= windows_at_in(sv, i as int, ts.as_nanos()),
            decreases sv.len() - i,
        {
            let in_window = if i + 1 < samples.len() {
                samples[i].timestamp.le(ts) && ts.lt(&samples[i + 1].timestamp)
            } else {
                samples[i].timestamp.le(ts)
            };
            proof {
                assert(in_window == window_holds(sv, i as int, ts.as_nanos()));
            }
            if in_window {
                out.push(samples[i]);
            }
            i = i + 1;
        }
        Ok(out)
    }
}

/// Whether position `i` of the full sequence opens a window holding the
/// instant: its time lies at or before the instant, and the next sample's —
/// when one follows — after it.
pub open spec fn window_holds(s: Seq<TimedTransform>, i: int, t: int) -> bool {
    &&& s[i].timestamp.as_nanos() <= t
    &&& (i + 1 < s.len() ==> t < s[i + 1].timestamp.as_nanos())
}

/// The samples of the prefix whose windows hold the instant, in order.
pub open spec fn windows_at_in(s: Seq<TimedTransform>, n: int, t: int) -> Seq<TimedTransform>
    decreases n,
{
    if n <= 0 {
        Seq::empty()
    } else {
        let rest = windows_at_in(s, n - 1, t);
        if window_holds(s, n - 1, t) {
            rest.push(s[n - 1])
        } else {
            rest
        }
    }
}

/// The samples whose windows hold the instant.
pub open spec fn windows_at(s: Seq<TimedTransform>, t: int) -> Seq<TimedTransform> {
    windows_at_in(s, s.len() as int, t)
}

} // verus!

use vstd::prelude::*;

verus! {

/// The abstract state of a [`DoubleBuffer`]: two content slots and the index
/// of the one that is live.
pub struct BufferModel {
    pub slots: Seq<Seq<char>>,
    pub live: int,
}

impl BufferModel {
    pub open spec fn wf(self) -> bool {
        &&& self.slots.len() == 2
        &&& (self.live == 0 || self.live == 1)
    }

    /// The content that readers are served.
    pub open spec fn live_content(self) -> Seq<char> {
        self.slots[self.live]
    }

    /// The slot that the next publish overwrites.
    pub open spec fn standby(self) -> int {
        1 - self.live
    }

    /// The state after `content` is written into the standby slot and made live.
    pub open spec fn published(self, content: Seq<char>) -> BufferModel {
        BufferModel { slots: self.slots.update(self.standby(), content), live: self.standby() }
    }
}

/// Two content slots, one of them live. Readers copy the live slot; a writer
/// fills the other slot and then flips which one is live.
pub struct DoubleBuffer {
    slot_a: String,
    slot_b: String,
    live_is_b: bool,
}

impl View for DoubleBuffer {
    type V = BufferModel;

    closed spec fn view(&self) -> BufferModel {
        BufferModel {
            slots: seq![self.slot_a@, self.slot_b@],
            live: if self.live_is_b { 1 } else { 0 },
        }
    }
}

impl DoubleBuffer {
    /// A buffer whose slot 0 holds `seed` and is live; slot 1 is empty.
    pub fn new(seed: String) -> (r: Self)
        ensures
            r@.wf(),
            r@.slots == seq![seed@, Seq::<char>::empty()],
            r@.live == 0,
    {
        let r = DoubleBuffer { slot_a: seed, slot_b: String::new(), live_is_b: false };
        assert(r@.slots =~= seq![r.slot_a@, Seq::<char>::empty()]);
        r
    }

    /// Index of the live slot.
    pub fn live_index(&self) -> (r: usize)
        ensures
            r == self@.live,
    {
        if self.live_is_b {
            1
        } else {
            0
        }
    }

    /// A copy of the live slot.
    pub fn read_live(&self) -> (r: String)
        ensures
            r@ == self@.live_content(),
    {
        if self.live_is_b {
            self.slot_b.clone()
        } else {
            self.slot_a.clone()
        }
    }

    /// Writes `content` into the slot that is not live, then makes that slot
    /// live. The previously live slot is left as it was.
    pub fn publish_and_swap(&mut self, content: String)
        ensures
            final(self)@ == old(self)@.published(content@),
            final(self)@.wf(),
    {
        if self.live_is_b {
            self.slot_a = content;
            self.live_is_b = false;
        } else {
            self.slot_b = content;
            self.live_is_b = true;
        }
        assert(self@.slots =~= old(self)@.slots.update(old(self)@.standby(), content@));
    }
}

/// One access to a buffer: a read of the live slot, or a publish of new content.
pub enum BufferAccess {
    Read,
    Publish(Seq<char>),
}

/// The state after `accesses` are applied to `m` one after another.
pub open spec fn state_after(m: BufferModel, accesses: Seq<BufferAccess>) -> BufferModel
    decreases accesses.len(),
{
    if accesses.len() == 0 {
        m
    } else {
        match accesses[0] {
            BufferAccess::Read => state_after(m, accesses.drop_first()),
            BufferAccess::Publish(c) => state_after(m.published(c), accesses.drop_first()),
        }
    }
}

/// What the reads among `accesses` return, in order, when the accesses are
/// applied to `m` one after another.
pub open spec fn reads_of(m: BufferModel, accesses: Seq<BufferAccess>) -> Seq<Seq<char>>
    decreases accesses.len(),
{
    if accesses.len() == 0 {
        Seq::empty()
    } else {
        match accesses[0] {
            BufferAccess::Read => seq![m.live_content()] + reads_of(m, accesses.drop_first()),
            BufferAccess::Publish(c) => reads_of(m.published(c), accesses.drop_first()),
        }
    }
}

/// `n` reads in a row.
pub open spec fn reads(n: nat) -> Seq<BufferAccess> {
    Seq::new(n, |i: int| BufferAccess::Read)
}

/// Reads with no publish among them all return the live content.
proof fn lemma_reads_without_publish(m: BufferModel, accesses: Seq<BufferAccess>)
    requires
        forall|i: int| 0 <= i < accesses.len() ==> accesses[i] is Read,
    ensures
        forall|k: int| 0 <= k < reads_of(m, accesses).len() ==> reads_of(m, accesses)[k] == m.live_content(),
        reads_of(m, accesses).len() == accesses.len(),
    decreases accesses.len(),
{
    if accesses.len() > 0 {
        let rest = accesses.drop_first();
        assert(forall|i: int| 0 <= i < rest.len() ==> rest[i] == accesses[i + 1]);
        lemma_reads_without_publish(m, rest);
        let r = reads_of(m, accesses);
        assert(r == seq![m.live_content()] + reads_of(m, rest));
        assert forall|k: int| 0 <= k < r.len() implies r[k] == m.live_content() by {
            if k > 0 {
                assert(r[k] == reads_of(m, rest)[k - 1]);
            }
        }
    }
}

/// Accesses that contain at most one publish, of `content`: every read returns
/// in full either the content that was live before, or `content`.
pub proof fn lemma_reads_see_whole_versions(
    m: BufferModel,
    accesses: Seq<BufferAccess>,
    content: Seq<char>,
)
    requires
        m.wf(),
        forall|i: int|
            0 <= i < accesses.len() && accesses[i] is Publish ==> accesses[i]
                == BufferAccess::Publish(content),
        forall|i: int, j: int|
            0 <= i < j < accesses.len() && accesses[i] is Publish ==> accesses[j] is Read,
    ensures
        forall|k: int|
            0 <= k < reads_of(m, accesses).len() ==> reads_of(m, accesses)[k] == m.live_content()
                || reads_of(m, accesses)[k] == content,
    decreases accesses.len(),
{
    if accesses.len() > 0 {
        let rest = accesses.drop_first();
        assert(forall|i: int| 0 <= i < rest.len() ==> rest[i] == accesses[i + 1]);
        let r = reads_of(m, accesses);
        match accesses[0] {
            BufferAccess::Read => {
                lemma_reads_see_whole_versions(m, rest, content);
                assert forall|k: int| 0 <= k < r.len() implies r[k] == m.live_content() || r[k]
                    == content by {
                    if k > 0 {
                        assert(r[k] == reads_of(m, rest)[k - 1]);
                    }
                }
            },
            BufferAccess::Publish(c) => {
                assert(accesses[0] == BufferAccess::Publish(content));
                assert(forall|j: int| 0 < j < accesses.len() ==> accesses[j] is Read);
                lemma_reads_without_publish(m.published(c), rest);
                assert(r == reads_of(m.published(c), rest));
                assert(m.published(c).live_content() == content);
            },
        }
    }
}

/// The state after reads only is the state before.
proof fn lemma_reads_keep_state(m: BufferModel, n: nat)
    ensures
        state_after(m, reads(n)) == m,
        reads_of(m, reads(n)) == Seq::new(n, |i: int| m.live_content()),
    decreases n,
{
    if n > 0 {
        assert(reads(n).drop_first() =~= reads((n - 1) as nat));
        lemma_reads_keep_state(m, (n - 1) as nat);
        assert(reads_of(m, reads(n)) =~= Seq::new(n, |i: int| m.live_content()));
    }
}

/// Applying `a` and then `b` reads what `a` reads, then what `b` reads from the
/// state that `a` left.
proof fn lemma_reads_concat(m: BufferModel, a: Seq<BufferAccess>, b: Seq<BufferAccess>)
    ensures
        reads_of(m, a + b) == reads_of(m, a) + reads_of(state_after(m, a), b),
        state_after(m, a + b) == state_after(state_after(m, a), b),
    decreases a.len(),
{
    if a.len() == 0 {
        assert(a + b =~= b);
        assert(reads_of(m, a) + reads_of(m, b) =~= reads_of(m, b));
    } else {
        assert((a + b).drop_first() =~= a.drop_first() + b);
        match a[0] {
            BufferAccess::Read => {
                lemma_reads_concat(m, a.drop_first(), b);
                assert(reads_of(m, a + b) =~= reads_of(m, a) + reads_of(state_after(m, a), b));
            },
            BufferAccess::Publish(c) => {
                lemma_reads_concat(m.published(c), a.drop_first(), b);
            },
        }
    }
}

/// Reads before a publish return the previous live content unchanged; every
/// read after it returns the published content.
pub proof fn lemma_publish_visible_to_next_read(
    m: BufferModel,
    content: Seq<char>,
    before: nat,
    after: nat,
)
    requires
        m.wf(),
    ensures
        reads_of(m, reads(before) + seq![BufferAccess::Publish(content)] + reads(after))
            == Seq::new(before, |i: int| m.live_content()) + Seq::new(after, |i: int| content),
{
    let p = seq![BufferAccess::Publish(content)];
    lemma_reads_keep_state(m, before);
    lemma_reads_concat(m, reads(before), p);
    lemma_reads_concat(m, reads(before) + p, reads(after));
    assert(p.len() == 1 && p[0] == BufferAccess::Publish(content));
    assert(p.drop_first() =~= Seq::<BufferAccess>::empty());
    assert(state_after(m.published(content), Seq::<BufferAccess>::empty()) == m.published(content));
    assert(reads_of(m.published(content), Seq::<BufferAccess>::empty()) =~= Seq::<Seq<char>>::empty());
    assert(state_after(m, p) == m.published(content));
    assert(reads_of(m, p) =~= Seq::<Seq<char>>::empty());
    lemma_reads_keep_state(m.published(content), after);
    assert(m.published(content).live_content() == content);
    assert(reads_of(m, reads(before) + p) =~= Seq::new(before, |i: int| m.live_content()));
}

} // verus!

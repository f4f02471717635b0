//! Data-start detection.
//!
//! An image may carry the 20-byte media signature at one of three fixed
//! trigger offsets; each trigger is paired with the offset at which the
//! disc's sector data then begins. The layouts are tried most specific
//! first, and the first one whose signature is present decides. An image
//! without the signature starts its data at offset 0.
//!
//! [`data_start_spec`] says this of an image given as a byte sequence.
//! [`get_data_start`] computes it for an image held in memory, and
//! [`Prober`] computes it for an image too large for that: it names the
//! offsets to read one at a time and is told what was read there.
use vstd::prelude::*;
use vstd::slice::slice_subrange;

verus! {

/// The media signature: ASCII `MICROSOFT*XBOX*MEDIA`.
pub const XGD_MAGIC: [u8; 20] = [
    0x4d, 0x49, 0x43, 0x52, 0x4f, 0x53, 0x4f, 0x46, 0x54, 0x2a,
    0x58, 0x42, 0x4f, 0x58, 0x2a, 0x4d, 0x45, 0x44, 0x49, 0x41,
];

/// Length in bytes of the media signature.
pub const XGD_MAGIC_LEN: u64 = 20;

/// How many layouts are probed.
pub const LAYOUT_COUNT: u8 = 3;

/// Where layout `k` keeps the signature.
pub open spec fn trigger_offset(k: int) -> u64 {
    if k == 0 {
        0xfda_0000
    } else if k == 1 {
        0x209_0000
    } else {
        0x1_0000
    }
}

/// Where the sector data of an image in layout `k` begins.
pub open spec fn paired_data_start(k: int) -> u64 {
    if k == 0 {
        0xfd9_0000
    } else if k == 1 {
        0x208_0000
    } else {
        0
    }
}

/// Whether an image of `len` bytes is large enough to hold the signature of
/// layout `k`.
pub open spec fn layout_fits(len: nat, k: int) -> bool {
    len >= trigger_offset(k) + XGD_MAGIC_LEN
}

/// Whether `image` holds the signature at the trigger offset of layout `k`.
pub open spec fn signature_at(image: Seq<u8>, k: int) -> bool {
    layout_fits(image.len(), k) && image.subrange(
        trigger_offset(k) as int,
        trigger_offset(k) + XGD_MAGIC_LEN,
    ) == XGD_MAGIC@
}

/// The data-start offset of `image`: that of the first layout, in probing
/// order, whose signature the image holds; 0 if it holds none.
pub open spec fn data_start_spec(image: Seq<u8>) -> u64 {
    if signature_at(image, 0) {
        paired_data_start(0)
    } else if signature_at(image, 1) {
        paired_data_start(1)
    } else if signature_at(image, 2) {
        paired_data_start(2)
    } else {
        0
    }
}

/// The first layout at or after `k` that fits an image of `len` bytes, or
/// [`LAYOUT_COUNT`] if none does.
pub open spec fn next_fitting(len: nat, k: int) -> int
    decreases LAYOUT_COUNT - k,
{
    if k >= LAYOUT_COUNT {
        LAYOUT_COUNT as int
    } else if layout_fits(len, k) {
        k
    } else {
        next_fitting(len, k + 1)
    }
}

/// What probing gives for `image` once the layouts before `k` are ruled
/// out: the data start of the first layout from `k` on whose signature the
/// image holds, or 0.
pub open spec fn probe_from(image: Seq<u8>, k: int) -> u64
    decreases LAYOUT_COUNT - k,
{
    if k < 0 || k >= LAYOUT_COUNT {
        0
    } else if signature_at(image, k) {
        paired_data_start(k)
    } else {
        probe_from(image, k + 1)
    }
}

/// What a [`Prober`] asks for next.
#[derive(Clone, Copy, Debug, PartialEq, Eq, Structural)]
pub enum ProbeStep {
    /// Read [`XGD_MAGIC_LEN`] bytes at `offset` and hand them to
    /// [`Prober::advance`].
    Read { offset: u64 },
    /// Probing is over, and this is the image's data-start offset.
    Done { data_start: u64 },
}

/// The step taken when the layouts before `k` are ruled out for an image of
/// `len` bytes.
pub open spec fn step_at(len: nat, k: int) -> ProbeStep {
    let j = next_fitting(len, k);
    if j >= LAYOUT_COUNT {
        ProbeStep::Done { data_start: 0 }
    } else {
        ProbeStep::Read { offset: trigger_offset(j) }
    }
}

/// Whether `bytes` are the media signature.
pub fn is_signature(bytes: &[u8]) -> (yes: bool)
    ensures
        yes == (bytes@ == XGD_MAGIC@),
{
    if bytes.len() != 20 {
        return false;
    }
    let mut i: usize = 0;
    while i < 20
        invariant
            i <= 20,
            bytes@.len() == 20,
            forall|j: int| 0 <= j < i ==> bytes@[j] == XGD_MAGIC@[j],
        decreases 20 - i,
    {
        if bytes[i] != XGD_MAGIC[i] {
            return false;
        }
        i += 1;
    }
    assert(bytes@ =~= XGD_MAGIC@);
    true
}

fn trigger_of(k: u8) -> (offset: u64)
    requires
        k < LAYOUT_COUNT,
    ensures
        offset == trigger_offset(k as int),
{
    if k == 0 {
        0xfda_0000
    } else if k == 1 {
        0x209_0000
    } else {
        0x1_0000
    }
}

fn data_start_of(k: u8) -> (offset: u64)
    requires
        k < LAYOUT_COUNT,
    ensures
        offset == paired_data_start(k as int),
{
    if k == 0 {
        0xfd9_0000
    } else if k == 1 {
        0x208_0000
    } else {
        0
    }
}

/// Walks the layouts for one image, of which only the length is known
/// beforehand.
///
/// [`Prober::start`] and [`Prober::advance`] each return the next step. On
/// [`ProbeStep::Read`] the caller reads the signature window at the given
/// offset and calls `advance` with it; on [`ProbeStep::Done`] probing is
/// over.
#[derive(Clone, Copy, Debug)]
pub struct Prober {
    file_len: u64,
    cursor: u8,
}

impl Prober {
    /// Length of the image being probed.
    pub closed spec fn file_len(&self) -> u64 {
        self.file_len
    }

    /// The layout whose signature window was asked for last, or
    /// [`LAYOUT_COUNT`] once probing is over.
    pub closed spec fn cursor(&self) -> int {
        self.cursor as int
    }

    #[verifier::type_invariant]
    spec fn valid(&self) -> bool {
        self.cursor <= LAYOUT_COUNT
    }

    fn seek_from(file_len: u64, k: u8) -> (found: u8)
        requires
            k <= LAYOUT_COUNT,
        ensures
            found == next_fitting(file_len as nat, k as int),
            k <= found <= LAYOUT_COUNT,
        decreases LAYOUT_COUNT - k,
    {
        if k >= LAYOUT_COUNT {
            LAYOUT_COUNT
        } else if file_len >= 20 && file_len - 20 >= trigger_of(k) {
            k
        } else {
            Prober::seek_from(file_len, k + 1)
        }
    }

    fn step_for(k: u8) -> (step: ProbeStep)
        requires
            k <= LAYOUT_COUNT,
        ensures
            step == (if k >= LAYOUT_COUNT {
                ProbeStep::Done { data_start: 0 }
            } else {
                ProbeStep::Read { offset: trigger_offset(k as int) }
            }),
    {
        if k >= LAYOUT_COUNT {
            ProbeStep::Done { data_start: 0 }
        } else {
            ProbeStep::Read { offset: trigger_of(k) }
        }
    }

    /// Begins probing an image of `file_len` bytes.
    ///
    /// Asks for the window of the first layout that fits the image; an
    /// image too small for every layout is done at once, with data start 0.
    pub fn start(file_len: u64) -> (begun: (Prober, ProbeStep))
        ensures
            begun.0.file_len() == file_len,
            begun.0.cursor() == next_fitting(file_len as nat, 0),
            begun.1 == step_at(file_len as nat, 0),
    {
        let cursor = Prober::seek_from(file_len, 0);
        (Prober { file_len, cursor }, Prober::step_for(cursor))
    }

    /// Takes the bytes read at the offset asked for last.
    ///
    /// If they are the signature, probing is done with the data start of
    /// the layout at the cursor. Otherwise the cursor moves to the next
    /// layout that fits, whose window is asked for; with none left, probing
    /// is done with data start 0. Once probing is over every call gives
    /// [`ProbeStep::Done`] with data start 0.
    pub fn advance(&mut self, window: &[u8]) -> (step: ProbeStep)
        ensures
            final(self).file_len() == old(self).file_len(),
            old(self).cursor() >= LAYOUT_COUNT ==> final(self).cursor() == LAYOUT_COUNT && step
                == (ProbeStep::Done { data_start: 0 }),
            old(self).cursor() < LAYOUT_COUNT && window@ == XGD_MAGIC@ ==> final(self).cursor()
                == LAYOUT_COUNT && step == (ProbeStep::Done {
                data_start: paired_data_start(old(self).cursor()),
            }),
            old(self).cursor() < LAYOUT_COUNT && window@ != XGD_MAGIC@ ==> final(self).cursor()
                == next_fitting(old(self).file_len() as nat, old(self).cursor() + 1) && step
                == step_at(old(self).file_len() as nat, old(self).cursor() + 1),
    {
        proof {
            use_type_invariant(&*self);
        }
        if self.cursor >= LAYOUT_COUNT {
            return ProbeStep::Done { data_start: 0 };
        }
        if is_signature(window) {
            let data_start = data_start_of(self.cursor);
            self.cursor = LAYOUT_COUNT;
            return ProbeStep::Done { data_start };
        }
        let next = Prober::seek_from(self.file_len, self.cursor + 1);
        self.cursor = next;
        Prober::step_for(next)
    }
}

/// The data-start offset of an image held in memory.
pub fn get_data_start(image: &[u8]) -> (data_start: u64)
    ensures
        data_start == data_start_spec(image@),
{
    let (mut prober, mut step) = Prober::start(image.len() as u64);
    proof {
        lemma_probe_from_start(image@);
        lemma_next_fitting_fits(image@.len(), 0);
        lemma_probe_skips(image@, 0);
    }
    loop
        invariant
            prober.file_len() == image@.len(),
            0 <= prober.cursor() <= LAYOUT_COUNT,
            step matches ProbeStep::Done { data_start: d } ==> d == data_start_spec(image@),
            step matches ProbeStep::Read { offset } ==> {
                &&& prober.cursor() < LAYOUT_COUNT
                &&& offset == trigger_offset(prober.cursor())
                &&& layout_fits(image@.len(), prober.cursor())
                &&& probe_from(image@, prober.cursor()) == data_start_spec(image@)
            },
        decreases LAYOUT_COUNT - prober.cursor(),
    {
        match step {
            ProbeStep::Done { data_start } => {
                return data_start;
            },
            ProbeStep::Read { offset } => {
                let ghost k = prober.cursor();
                let from = offset as usize;
                let window = slice_subrange(image, from, from + 20);
                proof {
                    lemma_next_fitting_fits(image@.len(), k + 1);
                    lemma_probe_skips(image@, k + 1);
                }
                step = prober.advance(window);
            },
        }
    }
}

/// The layout that [`next_fitting`] gives lies at or after `k`, fits the
/// image if it is a layout at all, and is the first such.
pub proof fn lemma_next_fitting_fits(len: nat, k: int)
    requires
        0 <= k,
    ensures
        k <= next_fitting(len, k) || next_fitting(len, k) == LAYOUT_COUNT,
        next_fitting(len, k) <= LAYOUT_COUNT,
        next_fitting(len, k) < LAYOUT_COUNT ==> layout_fits(len, next_fitting(len, k)),
        forall|j: int| k <= j < next_fitting(len, k) ==> !layout_fits(len, j),
        next_fitting(len, next_fitting(len, k)) == next_fitting(len, k),
    decreases LAYOUT_COUNT - k,
{
    if k < LAYOUT_COUNT && !layout_fits(len, k) {
        lemma_next_fitting_fits(len, k + 1);
    }
}

/// Layouts that do not fit an image cannot decide its data start: probing
/// from `k` is probing from the first layout at or after `k` that fits.
pub proof fn lemma_probe_skips(image: Seq<u8>, k: int)
    requires
        0 <= k,
    ensures
        probe_from(image, k) == probe_from(image, next_fitting(image.len(), k)),
    decreases LAYOUT_COUNT - k,
{
    if k < LAYOUT_COUNT && !layout_fits(image.len(), k) {
        lemma_probe_skips(image, k + 1);
    }
}

/// Probing from the first layout gives the image's data-start offset: the
/// walk that [`Prober`] makes agrees with [`data_start_spec`].
pub proof fn lemma_probe_from_start(image: Seq<u8>)
    ensures
        probe_from(image, 0) == data_start_spec(image),
{
    reveal_with_fuel(probe_from, 4);
}

/// An image that holds the signature at the trigger offset of exactly one
/// layout has that layout's data start.
pub proof fn lemma_single_signature(image: Seq<u8>, k: int)
    requires
        0 <= k < LAYOUT_COUNT,
        signature_at(image, k),
        forall|j: int| 0 <= j < LAYOUT_COUNT && j != k ==> !signature_at(image, j),
    ensures
        data_start_spec(image) == paired_data_start(k),
{
    assert(!signature_at(image, 0) || k == 0);
    assert(!signature_at(image, 1) || k == 1);
}

/// An image that holds the signature at no trigger offset has data start 0.
pub proof fn lemma_no_signature(image: Seq<u8>)
    requires
        forall|k: int| 0 <= k < LAYOUT_COUNT ==> !signature_at(image, k),
    ensures
        data_start_spec(image) == 0,
{
    assert(!signature_at(image, 0));
    assert(!signature_at(image, 1));
}

/// The first layout whose signature an image holds decides, whatever lies
/// at the triggers of the layouts after it.
pub proof fn lemma_first_signature_wins(image: Seq<u8>, k: int)
    requires
        0 <= k < LAYOUT_COUNT,
        signature_at(image, k),
        forall|j: int| 0 <= j < k ==> !signature_at(image, j),
    ensures
        data_start_spec(image) == paired_data_start(k),
{
    assert(k > 0 ==> !signature_at(image, 0));
    assert(k > 1 ==> !signature_at(image, 1));
}

} // verus!

//! The E0213A367 panel controller: what it is sent to start up and to
//! show the frame buffer.

use vstd::prelude::*;
use fixedbitset::FixedBitSet;
use crate::bitset::{bitset_bits, bitset_blocks, bitset_words, padding_clear, words_hold};
use crate::frame::{byte_pixel, frame_data, word_bytes, word_bytes_spec};
use crate::geometry::Size;
use crate::transfer::{command, lemma_steps_of_push, steps_of, Step, Transfer};

verus! {

/// A data transfer of one byte.
pub open spec fn data_byte(byte: u8) -> Step {
    Step::Data(seq![byte])
}

/// Software reset, then the panel's display and border settings.
pub open spec fn init_steps() -> Seq<Step> {
    seq![
        command(0x12),
        Step::WaitUntilIdle,
        command(0x37),
        Step::Data(seq![0x00u8, 0x80u8, 0x03u8, 0x0Eu8]),
        command(0x3C),
        data_byte(0x01),
    ]
}

/// One data transfer per frame buffer word, each with the word's bytes.
pub open spec fn word_steps(words: Seq<usize>) -> Seq<Step> {
    words.map_values(|w: usize| Step::Data(word_bytes_spec(w)))
}

/// Data entry mode, RAM window and cursor, then the black/white RAM.
pub open spec fn refresh_head() -> Seq<Step> {
    seq![
        command(0x11),
        data_byte(0x03),
        command(0x44),
        Step::Data(seq![0x00u8, 0x0Fu8]),
        command(0x45),
        Step::Data(seq![0x00u8, 250u8]),
        command(0x4E),
        data_byte(0x00),
        command(0x4F),
        data_byte(0x00),
        command(0x24),
    ]
}

/// The cursor again, then the second RAM.
pub open spec fn refresh_middle() -> Seq<Step> {
    seq![command(0x4E), data_byte(0x00), command(0x4F), data_byte(0x00), command(0x26)]
}

/// Update control, then the update itself, then the wait for its end.
pub open spec fn refresh_tail() -> Seq<Step> {
    seq![command(0x22), data_byte(0xF7), command(0x20), Step::WaitUntilIdle]
}

/// Everything sent to show a frame buffer held by `words`: both RAMs get
/// the frame.
pub open spec fn refresh_steps(words: Seq<usize>) -> Seq<Step> {
    refresh_head() + word_steps(words) + refresh_middle() + word_steps(words) + refresh_tail()
}

/// The bytes of the data transfers among `steps`, in order.
pub open spec fn data_bytes(steps: Seq<Step>) -> Seq<u8>
    decreases steps.len(),
{
    if steps.len() == 0 {
        Seq::empty()
    } else {
        data_bytes(steps.drop_last()) + match steps.last() {
            Step::Data(bytes) => bytes,
            _ => Seq::empty(),
        }
    }
}

fn push_command(transfers: &mut Vec<Transfer>, byte: u8)
    ensures
        steps_of(final(transfers)@) == steps_of(old(transfers)@).push(command(byte)),
{
    let bytes = vec![byte];
    assert(bytes@ =~= seq![byte]);
    let t = Transfer::Command(bytes);
    proof {
        lemma_steps_of_push(transfers@, t);
    }
    transfers.push(t);
}

fn push_data(transfers: &mut Vec<Transfer>, bytes: Vec<u8>)
    ensures
        steps_of(final(transfers)@) == steps_of(old(transfers)@).push(Step::Data(bytes@)),
{
    let t = Transfer::Data(bytes);
    proof {
        lemma_steps_of_push(transfers@, t);
    }
    transfers.push(t);
}

fn push_words(transfers: &mut Vec<Transfer>, words: &[usize])
    ensures
        steps_of(final(transfers)@) == steps_of(old(transfers)@) + word_steps(words@),
{
    let ghost start = steps_of(transfers@);
    let mut k: usize = 0;
    while k < words.len()
        invariant
            k <= words@.len(),
            steps_of(transfers@) == start + word_steps(words@.take(k as int)),
        decreases words@.len() - k,
    {
        let bytes = word_bytes(words[k]);
        push_data(transfers, bytes);
        assert(word_steps(words@.take(k as int + 1)) =~= word_steps(words@.take(k as int)).push(
            Step::Data(word_bytes_spec(words@[k as int])),
        ));
        k = k + 1;
    }
    assert(words@.take(words@.len() as int) =~= words@);
}

/// The E0213A367 controller of a 128 by 250 pixel panel.
pub struct E0213A367 {
    dimensions: Size,
}

impl E0213A367 {
    /// The panel's size in pixels.
    pub closed spec fn dims(&self) -> Size {
        self.dimensions
    }

    /// A controller for the 128 by 250 pixel panel.
    pub fn new() -> (d: Self)
        ensures
            d.dims() == (Size { width: 128, height: 250 }),
    {
        E0213A367 { dimensions: Size { width: 128, height: 250 } }
    }

    /// The panel's width and height in pixels.
    pub fn dimensions(&self) -> (s: Size)
        ensures
            s == self.dims(),
    {
        self.dimensions
    }

    /// What the controller is sent to start up once the panel is out of
    /// reset.
    pub fn init(&self) -> (transfers: Vec<Transfer>)
        ensures
            steps_of(transfers@) == init_steps(),
    {
        let mut transfers: Vec<Transfer> = Vec::new();
        push_command(&mut transfers, 0x12);
        let t = Transfer::WaitUntilIdle;
        proof {
            lemma_steps_of_push(transfers@, t);
        }
        transfers.push(t);
        push_command(&mut transfers, 0x37);
        push_data(&mut transfers, vec![0x00u8, 0x80u8, 0x03u8, 0x0Eu8]);
        push_command(&mut transfers, 0x3C);
        push_data(&mut transfers, vec![0x01u8]);
        assert(steps_of(transfers@) =~~= init_steps());
        transfers
    }

    /// A hardware reset of the panel, then `init`.
    pub fn init_after_reset(&self) -> (transfers: Vec<Transfer>)
        ensures
            steps_of(transfers@) == seq![Step::Reset] + init_steps(),
    {
        let mut transfers: Vec<Transfer> = Vec::new();
        let t = Transfer::Reset;
        proof {
            lemma_steps_of_push(transfers@, t);
        }
        transfers.push(t);
        let mut rest = self.init();
        transfers.append(&mut rest);
        assert(steps_of(transfers@) =~~= seq![Step::Reset] + init_steps());
        transfers
    }

    /// What shows a frame buffer held by `words`.
    pub fn refresh_words(&self, words: &[usize]) -> (transfers: Vec<Transfer>)
        ensures
            steps_of(transfers@) == refresh_steps(words@),
    {
        let mut transfers: Vec<Transfer> = Vec::new();
        push_command(&mut transfers, 0x11);
        push_data(&mut transfers, vec![0x03u8]);
        push_command(&mut transfers, 0x44);
        push_data(&mut transfers, vec![0x00u8, 0x0Fu8]);
        push_command(&mut transfers, 0x45);
        push_data(&mut transfers, vec![0x00u8, 250u8]);
        push_command(&mut transfers, 0x4E);
        push_data(&mut transfers, vec![0x00u8]);
        push_command(&mut transfers, 0x4F);
        push_data(&mut transfers, vec![0x00u8]);
        push_command(&mut transfers, 0x24);
        assert(steps_of(transfers@) =~~= refresh_head());
        push_words(&mut transfers, words);
        push_command(&mut transfers, 0x4E);
        push_data(&mut transfers, vec![0x00u8]);
        push_command(&mut transfers, 0x4F);
        push_data(&mut transfers, vec![0x00u8]);
        push_command(&mut transfers, 0x26);
        assert(steps_of(transfers@) =~~= refresh_head() + word_steps(words@) + refresh_middle());
        push_words(&mut transfers, words);
        push_command(&mut transfers, 0x22);
        push_data(&mut transfers, vec![0xF7u8]);
        push_command(&mut transfers, 0x20);
        let t = Transfer::WaitUntilIdle;
        proof {
            lemma_steps_of_push(transfers@, t);
        }
        transfers.push(t);
        assert(steps_of(transfers@) =~~= refresh_steps(words@));
        transfers
    }

    /// What shows `frame_buffer` on the panel: the words that the bit set
    /// keeps its bits in go to both RAMs.
    pub fn refresh(&self, frame_buffer: &FixedBitSet) -> (transfers: Vec<Transfer>)
        ensures
            steps_of(transfers@) == refresh_steps(bitset_blocks(*frame_buffer)),
            words_hold(bitset_blocks(*frame_buffer), bitset_bits(*frame_buffer)),
    {
        let words = bitset_words(frame_buffer);
        self.refresh_words(words)
    }
}

/// Every refresh, whatever the frame, sends the same setup first, the
/// frame's words one data transfer each, the same cursor reset before
/// the second RAM, the frame's words again, and always ends with update
/// control 0xF7, master activation 0x20 and a wait for the panel.
pub proof fn lemma_refresh_frame_independent(words: Seq<usize>)
    ensures
        ({
            let s = refresh_steps(words);
            let n = words.len() as int;
            &&& s.len() == 2 * n + 20
            &&& s.subrange(0, 11) =~~= seq![
                Step::Command(seq![0x11u8]),
                Step::Data(seq![0x03u8]),
                Step::Command(seq![0x44u8]),
                Step::Data(seq![0x00u8, 0x0Fu8]),
                Step::Command(seq![0x45u8]),
                Step::Data(seq![0x00u8, 250u8]),
                Step::Command(seq![0x4Eu8]),
                Step::Data(seq![0x00u8]),
                Step::Command(seq![0x4Fu8]),
                Step::Data(seq![0x00u8]),
                Step::Command(seq![0x24u8]),
            ]
            &&& forall|k: int| 0 <= k < n ==> #[trigger] s[11 + k] == Step::Data(word_bytes_spec(words[k]))
                && s[16 + n + k] == Step::Data(word_bytes_spec(words[k]))
            &&& s.subrange(11 + n, 16 + n) =~~= seq![
                Step::Command(seq![0x4Eu8]),
                Step::Data(seq![0x00u8]),
                Step::Command(seq![0x4Fu8]),
                Step::Data(seq![0x00u8]),
                Step::Command(seq![0x26u8]),
            ]
            &&& s.subrange(2 * n + 16, 2 * n + 20) =~~= seq![
                Step::Command(seq![0x22u8]),
                Step::Data(seq![0xF7u8]),
                Step::Command(seq![0x20u8]),
                Step::WaitUntilIdle,
            ]
        }),
{
    let s = refresh_steps(words);
    let n = words.len() as int;
    assert(s.subrange(0, 11) =~~= refresh_head());
    assert(s.subrange(11 + n, 16 + n) =~~= refresh_middle());
    assert(s.subrange(2 * n + 16, 2 * n + 20) =~~= refresh_tail());
}

/// Start-up sends the software reset 0x12, waits for the panel, then sets
/// the display option 0x37 and the border waveform 0x3C.
pub proof fn lemma_init_sequence()
    ensures
        init_steps() =~~= seq![
            Step::Command(seq![0x12u8]),
            Step::WaitUntilIdle,
            Step::Command(seq![0x37u8]),
            Step::Data(seq![0x00u8, 0x80u8, 0x03u8, 0x0Eu8]),
            Step::Command(seq![0x3Cu8]),
            Step::Data(seq![0x01u8]),
        ],
{
}

proof fn lemma_word_steps_data(words: Seq<usize>)
    ensures
        data_bytes(word_steps(words)) == frame_data(words),
    decreases words.len(),
{
    if words.len() > 0 {
        lemma_word_steps_data(words.drop_last());
        assert(word_steps(words).drop_last() =~= word_steps(words.drop_last()));
    }
}

/// Both RAM writes of a refresh carry the frame buffer's pixels in order,
/// eight per byte, the first of each eight in the most significant bit:
/// the data after command 0x24, and again after command 0x26, is the
/// frame's bytes, and pixel `i` is bit `7 - i % 8` of byte `i / 8`.
/// Where the words are clear past the last pixel, so are the bytes.
pub proof fn lemma_refresh_writes_pixels(words: Seq<usize>, bits: Seq<bool>)
    requires
        words_hold(words, bits),
    ensures
        ({
            let s = refresh_steps(words);
            let n = words.len() as int;
            &&& s.len() == 2 * n + 20
            &&& s[10] == command(0x24)
            &&& data_bytes(s.subrange(11, 11 + n)) == frame_data(words)
            &&& s[15 + n] == command(0x26)
            &&& data_bytes(s.subrange(16 + n, 16 + 2 * n)) == frame_data(words)
        }),
        bits.len() <= 8 * frame_data(words).len(),
        forall|i: int| 0 <= i < bits.len() ==> #[trigger] byte_pixel(frame_data(words)[i / 8], i % 8) == bits[i],
        padding_clear(words, bits.len()) ==> forall|i: int| bits.len() <= i < 8 * frame_data(words).len()
            ==> !#[trigger] byte_pixel(frame_data(words)[i / 8], i % 8),
{
    let s = refresh_steps(words);
    let n = words.len() as int;
    lemma_word_steps_data(words);
    assert(s.subrange(11, 11 + n) =~= word_steps(words));
    assert(s.subrange(16 + n, 16 + 2 * n) =~= word_steps(words));
    crate::frame::lemma_frame_data_holds_pixels(words, bits);
}

} // verus!

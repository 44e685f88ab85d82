//! The workload generator: a byte buffer that a small command language
//! resizes and fills, so that a target has a controlled amount of memory to
//! scan.
use vstd::prelude::*;
use crate::protocol::{ascii_space, is_ascii_space, views};

verus! {

/// The first `n` bytes drawn from rand_pcg's `Mcg128Xsl64` seeded with
/// `seed`, each sampled from `[0, 255)`.
pub uninterp spec fn random_bytes_of(seed: u64, n: nat) -> Seq<u8>;

/// Relies on `rand_core::SeedableRng::seed_from_u64` for rand_pcg's
/// `Mcg128Xsl64`, whose stream depends on the seed alone, and on
/// `rand::Rng::sample` with `rand::distributions::Uniform::new(0, 255)`, which
/// draws from the half-open range `[0, 255)`.
#[verifier::external_body]
fn random_bytes(seed: u64, n: usize) -> (r: Vec<u8>)
    ensures
        r@ == random_bytes_of(seed, n as nat),
        r@.len() == n,
        forall|i: int| 0 <= i < n ==> #[trigger] r@[i] < 255,
{
    let mut rng = <rand_pcg::Mcg128Xsl64 as rand::SeedableRng>::seed_from_u64(seed);
    let distr = rand::distributions::Uniform::new(u8::MIN, u8::MAX);
    (0..n).map(|_| rand::Rng::sample(&mut rng, distr)).collect()
}

/// The generator's buffer.
pub struct State {
    pub memory: Vec<u8>,
}

/// A command of the generator's language.
#[derive(Clone, Copy, Debug, PartialEq, Eq)]
pub enum Command {
    Exit,
    SetMemorySize { new_memory_size: usize },
    Fill { value: u8 },
    FillRandom { seed: u64 },
    SetAddress { address: usize, value: u8 },
    Info,
}

/// What a command did, for the generator to report.
#[derive(Clone, Copy, Debug, PartialEq, Eq)]
pub enum Outcome {
    /// The command ran; the generator prints `Done`.
    Done,
    /// `info` was asked for: the generator prints size, start and end.
    InfoRequested,
    /// `set-address` on an empty buffer.
    MemoryEmpty,
    /// `set-address` outside the buffer.
    AddressNotInRange,
    /// `exit`: the generator stops.
    Exit,
}

/// `synthetic-load> `, the prompt that stands as the program name in front of
/// a parsed line.
pub open spec fn prompt() -> Seq<u8> {
    seq![115u8, 121, 110, 116, 104, 101, 116, 105, 99, 45, 108, 111, 97, 100, 62, 32]
}

/// The maximal runs of non-whitespace bytes of `s`, in order.
pub open spec fn fields(s: Seq<u8>) -> Seq<Seq<u8>>
    decreases s.len(),
{
    if s.len() == 0 {
        Seq::empty()
    } else {
        let prev = fields(s.drop_last());
        let c = s.last();
        if is_ascii_space(c) {
            prev
        } else if s.len() >= 2 && !is_ascii_space(s[s.len() - 2]) {
            prev.update(prev.len() - 1, prev.last().push(c))
        } else {
            prev.push(seq![c])
        }
    }
}

/// Splits a typed line into its words, with the prompt in front as the
/// program name, ready for an argument parser.
pub fn prepare_input_line(line: &[u8]) -> (r: Vec<Vec<u8>>)
    ensures
        views(r@) == seq![prompt()] + fields(line@),
{
    let p: Vec<u8> = vec![115u8, 121, 110, 116, 104, 101, 116, 105, 99, 45, 108, 111, 97, 100, 62, 32];
    assert(p@ =~= prompt());
    let mut out: Vec<Vec<u8>> = Vec::new();
    out.push(p);
    let mut cur: Vec<u8> = Vec::new();
    let mut i: usize = 0;
    assert(line@.subrange(0, 0) =~= Seq::<u8>::empty());
    assert(views(out@) =~= seq![prompt()]);
    while i < line.len()
        invariant
            0 <= i <= line@.len(),
            views(out@).len() >= 1,
            views(out@)[0] == prompt(),
            seq![prompt()] + fields(line@.subrange(0, i as int)) == views(out@) + (if cur@.len() > 0 {
                seq![cur@]
            } else {
                Seq::<Seq<u8>>::empty()
            }),
            cur@.len() > 0 <==> (i > 0 && !is_ascii_space(line@[i - 1])),
        decreases line@.len() - i,
    {
        let c = line[i];
        let ghost pre = line@.subrange(0, i as int);
        let ghost next = line@.subrange(0, i + 1);
        assert(next.drop_last() =~= pre);
        assert(next.last() == c);
        if ascii_space(c) {
            if cur.len() > 0 {
                let piece = cur;
                out.push(piece);
                cur = Vec::new();
                assert(views(out@) =~= views(out@).subrange(0, out@.len() - 1).push(piece@));
                assert(views(out@).subrange(0, out@.len() - 1) + seq![piece@] =~= views(out@));
            }
            assert(views(out@) + Seq::<Seq<u8>>::empty() =~= views(out@));
        } else {
            let ghost old_cur = cur@;
            let had = cur.len() > 0;
            cur.push(c);
            if had {
                assert(next[next.len() - 2] == line@[i - 1]);
                let ghost f = fields(pre);
                assert(seq![prompt()] + f =~= views(out@) + seq![old_cur]);
                assert(f.len() >= 1);
                assert(f.last() == old_cur) by {
                    assert((seq![prompt()] + f).last() == f.last());
                }
                let ghost l = views(out@);
                assert(cur@ == old_cur.push(c));
                assert(f.len() == l.len());
                assert(seq![prompt()] + f.update(f.len() - 1, old_cur.push(c))
                    =~= (seq![prompt()] + f).update(f.len() as int, old_cur.push(c)));
                assert((l + seq![old_cur]).update(l.len() as int, old_cur.push(c)) =~= l + seq![cur@]);
            } else {
                if i > 0 {
                    assert(next[next.len() - 2] == line@[i - 1]);
                }
                assert(views(out@) + Seq::<Seq<u8>>::empty() =~= views(out@));
                assert(seq![prompt()] + fields(pre).push(seq![c]) =~= (seq![prompt()] + fields(pre)).push(seq![c]));
                assert(seq![c] =~= cur@);
            }
        }
        i = i + 1;
    }
    assert(line@.subrange(0, i as int) =~= line@);
    if cur.len() > 0 {
        let piece = cur;
        out.push(piece);
        assert(views(out@) =~= views(out@).subrange(0, out@.len() - 1).push(piece@));
    } else {
        assert(views(out@) + Seq::<Seq<u8>>::empty() =~= views(out@));
    }
    out
}

/// `m` cut or extended with zero bytes to length `n`.
pub open spec fn resized(m: Seq<u8>, n: nat) -> Seq<u8> {
    Seq::new(n, |i: int| if i < m.len() { m[i] } else { 0u8 })
}

/// Resizes the buffer to `new_size` bytes; bytes added are zero.
pub fn set_memory_size(state: &mut State, new_size: usize)
    ensures
        final(state).memory@ == resized(old(state).memory@, new_size as nat),
{
    let ghost before = state.memory@;
    state.memory.resize(new_size, 0u8);
    proof {
        if new_size > before.len() {
            assert forall|i: int| 0 <= i < before.len() implies #[trigger] state.memory@[i] == before[i] by {
                assert(state.memory@.subrange(0, before.len() as int)[i] == state.memory@[i]);
            }
        }
        assert(state.memory@ =~= resized(before, new_size as nat));
    }
}

/// Sets every byte of the buffer to `value`.
pub fn fill_memory(state: &mut State, value: u8)
    ensures
        final(state).memory@.len() == old(state).memory@.len(),
        forall|i: int| 0 <= i < final(state).memory@.len() ==> #[trigger] final(state).memory@[i] == value,
{
    let n = state.memory.len();
    let mut i: usize = 0;
    while i < n
        invariant
            0 <= i <= n,
            state.memory@.len() == n,
            n == old(state).memory@.len(),
            forall|k: int| 0 <= k < i ==> #[trigger] state.memory@[k] == value,
        decreases n - i,
    {
        state.memory[i] = value;
        i = i + 1;
    }
}

/// Refills the buffer from a generator seeded with `seed`: the contents
/// depend on the seed and the length alone, and every byte lies in `[0, 255)`.
pub fn fill_memory_random(state: &mut State, seed: u64)
    ensures
        final(state).memory@ == random_bytes_of(seed, old(state).memory@.len()),
        final(state).memory@.len() == old(state).memory@.len(),
        forall|i: int| 0 <= i < final(state).memory@.len() ==> #[trigger] final(state).memory@[i] < 255,
{
    let n = state.memory.len();
    let bytes = random_bytes(seed, n);
    let mut i: usize = 0;
    while i < n
        invariant
            0 <= i <= n,
            state.memory@.len() == n,
            n == old(state).memory@.len(),
            bytes@.len() == n,
            forall|k: int| 0 <= k < i ==> #[trigger] state.memory@[k] == bytes@[k],
        decreases n - i,
    {
        state.memory[i] = bytes[i];
        i = i + 1;
    }
    assert(state.memory@ =~= bytes@);
}

/// Writes `value` at `address`, for a buffer that starts at address `base`.
pub fn set_address(state: &mut State, base: usize, address: usize, value: u8) -> (r: Outcome)
    ensures
        old(state).memory@.len() == 0 ==> r == Outcome::MemoryEmpty,
        old(state).memory@.len() > 0 && !(base <= address && address - base < old(state).memory@.len())
            ==> r == Outcome::AddressNotInRange,
        old(state).memory@.len() > 0 && base <= address && address - base < old(state).memory@.len() ==> {
            &&& r == Outcome::Done
            &&& final(state).memory@ == old(state).memory@.update(address - base, value)
        },
        r != Outcome::Done ==> final(state).memory@ == old(state).memory@,
{
    if state.memory.len() == 0 {
        return Outcome::MemoryEmpty;
    }
    if address < base || address - base >= state.memory.len() {
        return Outcome::AddressNotInRange;
    }
    let index = address - base;
    state.memory[index] = value;
    Outcome::Done
}

/// Runs one command against the buffer, which starts at address `base`.
pub fn perform_command(state: &mut State, command: Command, base: usize) -> (r: Outcome)
    ensures
        command == Command::Exit ==> r == Outcome::Exit && final(state).memory@ == old(state).memory@,
        command == Command::Info ==> r == Outcome::InfoRequested && final(state).memory@ == old(state).memory@,
        command matches Command::SetMemorySize { new_memory_size } ==> r == Outcome::Done
            && final(state).memory@ == resized(old(state).memory@, new_memory_size as nat),
        command matches Command::Fill { value } ==> r == Outcome::Done
            && final(state).memory@ == Seq::new(old(state).memory@.len(), |i: int| value),
        command matches Command::FillRandom { seed } ==> r == Outcome::Done
            && final(state).memory@ == random_bytes_of(seed, old(state).memory@.len())
            && forall|i: int| 0 <= i < final(state).memory@.len() ==> #[trigger] final(state).memory@[i] < 255,
        command matches Command::SetAddress { address, value } ==> {
            let m = old(state).memory@;
            if m.len() == 0 {
                r == Outcome::MemoryEmpty && final(state).memory@ == m
            } else if base <= address && address - base < m.len() {
                r == Outcome::Done && final(state).memory@ == m.update(address - base, value)
            } else {
                r == Outcome::AddressNotInRange && final(state).memory@ == m
            }
        },
{
    match command {
        Command::Exit => Outcome::Exit,
        Command::Info => Outcome::InfoRequested,
        Command::SetMemorySize { new_memory_size } => {
            set_memory_size(state, new_memory_size);
            Outcome::Done
        },
        Command::Fill { value } => {
            fill_memory(state, value);
            assert(state.memory@ =~= Seq::new(old(state).memory@.len(), |i: int| value));
            Outcome::Done
        },
        Command::FillRandom { seed } => {
            fill_memory_random(state, seed);
            Outcome::Done
        },
        Command::SetAddress { address, value } => set_address(state, base, address, value),
    }
}

} // verus!

//! The line protocol spoken with the workload generator and the target.
//!
//! Lines are byte strings without their trailing newline unless stated.
use vstd::prelude::*;

verus! {

pub open spec fn is_ascii_space(b: u8) -> bool {
    b == 0x20 || b == 0x09 || b == 0x0a || b == 0x0c || b == 0x0d
}

pub fn ascii_space(b: u8) -> (r: bool)
    ensures
        r == is_ascii_space(b),
{
    b == 0x20 || b == 0x09 || b == 0x0a || b == 0x0c || b == 0x0d
}

/// Decimal digits of `n`, most significant first, without leading zeros.
pub open spec fn decimal(n: nat) -> Seq<u8>
    decreases n,
{
    if n < 10 {
        seq![(48 + n) as u8]
    } else {
        decimal(n / 10).push((48 + n % 10) as u8)
    }
}

/// Decimal form of a signed number, with a leading `-` when negative.
pub open spec fn signed_decimal(v: int) -> Seq<u8> {
    if v < 0 {
        seq![45u8] + decimal((-v) as nat)
    } else {
        decimal(v as nat)
    }
}

/// Appends the decimal digits of `n`.
pub fn push_decimal(out: &mut Vec<u8>, n: u64)
    ensures
        final(out)@ == old(out)@ + decimal(n as nat),
    decreases n,
{
    if n >= 10 {
        push_decimal(out, n / 10);
    }
    let ghost mid = out@;
    out.push(48u8 + (n % 10) as u8);
    assert(old(out)@ + decimal(n as nat) =~= mid.push((48 + n % 10) as u8));
}

/// Appends the decimal form of `v`, sign included.
pub fn push_signed_decimal(out: &mut Vec<u8>, v: i32)
    ensures
        final(out)@ == old(out)@ + signed_decimal(v as int),
{
    if v < 0 {
        out.push(45u8);
        let ghost mid = out@;
        let magnitude: u64 = (-(v as i64)) as u64;
        push_decimal(out, magnitude);
        assert(final(out)@ =~= old(out)@ + signed_decimal(v as int)) by {
            assert(mid == old(out)@.push(45u8));
        }
    } else {
        push_decimal(out, v as u64);
    }
}

/// `set-memory-size `
pub open spec fn set_memory_size_verb() -> Seq<u8> {
    seq![115u8, 101, 116, 45, 109, 101, 109, 111, 114, 121, 45, 115, 105, 122, 101, 32]
}

/// `fill-random `
pub open spec fn fill_random_verb() -> Seq<u8> {
    seq![102u8, 105, 108, 108, 45, 114, 97, 110, 100, 111, 109, 32]
}

/// `exit`
pub open spec fn exit_word() -> Seq<u8> {
    seq![101u8, 120, 105, 116]
}

/// `Done`, the line that acknowledges a setup request.
pub open spec fn done_word() -> Seq<u8> {
    seq![68u8, 111, 110, 101]
}

/// `--pid=`
pub open spec fn pid_flag() -> Seq<u8> {
    seq![45u8, 45, 112, 105, 100, 61]
}

/// `-j=`
pub open spec fn threads_flag() -> Seq<u8> {
    seq![45u8, 106, 61]
}

/// The value of the thread count that leaves the thread flag out.
pub const THREADS_UNSET: i32 = -1;

/// Request that resizes the workload buffer to `size` bytes.
pub fn set_memory_size_request(size: u64) -> (r: Vec<u8>)
    ensures
        r@ == set_memory_size_verb() + decimal(size as nat),
{
    let mut line: Vec<u8> = vec![115u8, 101, 116, 45, 109, 101, 109, 111, 114, 121, 45, 115, 105, 122, 101, 32];
    assert(line@ =~= set_memory_size_verb());
    push_decimal(&mut line, size);
    line
}

/// Request that fills the workload buffer from `seed`.
pub fn fill_random_request(seed: u64) -> (r: Vec<u8>)
    ensures
        r@ == fill_random_verb() + decimal(seed as nat),
{
    let mut line: Vec<u8> = vec![102u8, 105, 108, 108, 45, 114, 97, 110, 100, 111, 109, 32];
    assert(line@ =~= fill_random_verb());
    push_decimal(&mut line, seed);
    line
}

/// Request that ends the workload generator.
pub fn exit_request() -> (r: Vec<u8>)
    ensures
        r@ == exit_word(),
{
    let line: Vec<u8> = vec![101u8, 120, 105, 116];
    assert(line@ =~= exit_word());
    line
}

/// The sentinel that acknowledges a setup request.
pub fn done_sentinel() -> (r: Vec<u8>)
    ensures
        r@ == done_word(),
{
    let line: Vec<u8> = vec![68u8, 111, 110, 101];
    assert(line@ =~= done_word());
    line
}

/// Arguments of one target invocation: the workload's process id and, unless
/// `nthreads` is `THREADS_UNSET`, the thread count.
pub open spec fn target_args_of(pid: u32, nthreads: i32) -> Seq<Seq<u8>> {
    let first = pid_flag() + decimal(pid as nat);
    if nthreads == THREADS_UNSET {
        seq![first]
    } else {
        seq![first, threads_flag() + signed_decimal(nthreads as int)]
    }
}

pub open spec fn views(v: Seq<Vec<u8>>) -> Seq<Seq<u8>> {
    v.map_values(|x: Vec<u8>| x@)
}

/// Builds the target's arguments.
pub fn target_args(pid: u32, nthreads: i32) -> (r: Vec<Vec<u8>>)
    ensures
        views(r@) == target_args_of(pid, nthreads),
{
    let mut first: Vec<u8> = vec![45u8, 45, 112, 105, 100, 61];
    assert(first@ =~= pid_flag());
    push_decimal(&mut first, pid as u64);
    let mut args: Vec<Vec<u8>> = Vec::new();
    args.push(first);
    if nthreads != THREADS_UNSET {
        let mut second: Vec<u8> = vec![45u8, 106, 61];
        assert(second@ =~= threads_flag());
        push_signed_decimal(&mut second, nthreads);
        args.push(second);
    }
    assert(views(args@) =~= target_args_of(pid, nthreads));
    args
}

/// `line`, as read with its newline, is exactly the sentinel.
pub fn matches_sentinel(line: &[u8], sentinel: &[u8]) -> (r: bool)
    ensures
        r == (line@ == sentinel@.push(0x0a)),
{
    if line.len() == 0 || line.len() - 1 != sentinel.len() {
        assert(line@.len() != sentinel@.push(0x0a).len());
        return false;
    }
    let mut i: usize = 0;
    while i < sentinel.len()
        invariant
            0 <= i <= sentinel@.len(),
            line@.len() == sentinel@.len() + 1,
            forall|k: int| 0 <= k < i ==> line@[k] == sentinel@[k],
        decreases sentinel@.len() - i,
    {
        if line[i] != sentinel[i] {
            assert(line@[i as int] != sentinel@.push(0x0a)[i as int]);
            return false;
        }
        i = i + 1;
    }
    if line[i] != 0x0a {
        assert(line@[i as int] != sentinel@.push(0x0a)[i as int]);
        return false;
    }
    assert(line@ =~= sentinel@.push(0x0a));
    true
}

/// What reading one more line means while waiting for a sentinel.
#[derive(Clone, Copy, Debug, PartialEq, Eq)]
pub enum ReadStep {
    /// The sentinel arrived.
    Found,
    /// Another line; keep reading.
    KeepReading,
    /// The stream ended first: the peer has gone.
    StreamClosed,
}

/// Decides on one read while waiting for `sentinel`; `None` is the end of
/// the stream.
pub fn on_line_read(line: Option<&[u8]>, sentinel: &[u8]) -> (r: ReadStep)
    ensures
        line is None <==> r == ReadStep::StreamClosed,
        line matches Some(l) ==> (r == ReadStep::Found <==> l@ == sentinel@.push(0x0a)),
{
    match line {
        None => ReadStep::StreamClosed,
        Some(l) => {
            if matches_sentinel(l, sentinel) {
                ReadStep::Found
            } else {
                ReadStep::KeepReading
            }
        },
    }
}

/// The pieces of `s` between `;` separators; an input without separator is
/// one piece.
pub open spec fn split_semicolons(s: Seq<u8>) -> Seq<Seq<u8>>
    decreases s.len(),
{
    if s.len() == 0 {
        seq![Seq::empty()]
    } else {
        let prev = split_semicolons(s.drop_last());
        if s.last() == 0x3b {
            prev.push(Seq::empty())
        } else {
            prev.update(prev.len() - 1, prev.last().push(s.last()))
        }
    }
}

proof fn lemma_split_nonempty(s: Seq<u8>)
    ensures
        split_semicolons(s).len() >= 1,
    decreases s.len(),
{
    if s.len() > 0 {
        lemma_split_nonempty(s.drop_last());
    }
}

/// Splits a command list at each `;`.
pub fn split_commands(input: &[u8]) -> (r: Vec<Vec<u8>>)
    ensures
        views(r@) == split_semicolons(input@),
{
    let mut out: Vec<Vec<u8>> = Vec::new();
    let mut cur: Vec<u8> = Vec::new();
    let mut i: usize = 0;
    assert(input@.subrange(0, 0) =~= Seq::<u8>::empty());
    while i < input.len()
        invariant
            0 <= i <= input@.len(),
            views(out@).push(cur@) == split_semicolons(input@.subrange(0, i as int)),
        decreases input@.len() - i,
    {
        let b = input[i];
        let ghost pre = input@.subrange(0, i as int);
        assert(input@.subrange(0, i + 1).drop_last() =~= pre);
        proof {
            lemma_split_nonempty(pre);
        }
        if b == 0x3b {
            let piece = cur;
            out.push(piece);
            cur = Vec::new();
            assert(views(out@) =~= views(out@).subrange(0, out@.len() - 1).push(piece@));
            assert(views(out@).push(cur@) =~= split_semicolons(pre).push(Seq::empty()));
        } else {
            let ghost old_cur = cur@;
            cur.push(b);
            assert(views(out@).push(cur@) =~= split_semicolons(pre).update(
                split_semicolons(pre).len() - 1, old_cur.push(b)));
        }
        i = i + 1;
    }
    out.push(cur);
    assert(input@.subrange(0, i as int) =~= input@);
    assert(views(out@) =~= views(out@).subrange(0, out@.len() - 1).push(out@.last()@));
    out
}

/// `s` without leading ASCII whitespace.
pub open spec fn trim_start(s: Seq<u8>) -> Seq<u8>
    decreases s.len(),
{
    if s.len() > 0 && is_ascii_space(s[0]) {
        trim_start(s.drop_first())
    } else {
        s
    }
}

/// `s` without trailing ASCII whitespace.
pub open spec fn trim_end(s: Seq<u8>) -> Seq<u8>
    decreases s.len(),
{
    if s.len() > 0 && is_ascii_space(s.last()) {
        trim_end(s.drop_last())
    } else {
        s
    }
}

pub open spec fn trim(s: Seq<u8>) -> Seq<u8> {
    trim_end(trim_start(s))
}

/// `s` without leading and trailing ASCII whitespace.
pub fn trim_ascii(s: &[u8]) -> (r: Vec<u8>)
    ensures
        r@ == trim(s@),
{
    let mut a: usize = 0;
    assert(s@.subrange(0, s@.len() as int) =~= s@);
    while a < s.len() && ascii_space(s[a])
        invariant
            0 <= a <= s@.len(),
            trim_start(s@) == trim_start(s@.subrange(a as int, s@.len() as int)),
        decreases s@.len() - a,
    {
        assert(s@.subrange(a + 1, s@.len() as int) =~= s@.subrange(a as int, s@.len() as int).drop_first());
        a = a + 1;
    }
    let ghost front = s@.subrange(a as int, s@.len() as int);
    assert(trim_start(s@) == front);
    let mut b: usize = s.len();
    while b > a && ascii_space(s[b - 1])
        invariant
            a <= b <= s@.len(),
            trim(s@) == trim_end(s@.subrange(a as int, b as int)),
            front == s@.subrange(a as int, s@.len() as int),
            trim_start(s@) == front,
        decreases b,
    {
        assert(s@.subrange(a as int, b - 1) =~= s@.subrange(a as int, b as int).drop_last());
        b = b - 1;
    }
    let mut r: Vec<u8> = Vec::new();
    let mut k: usize = a;
    while k < b
        invariant
            a <= k <= b <= s@.len(),
            r@ == s@.subrange(a as int, k as int),
        decreases b - k,
    {
        r.push(s[k]);
        assert(s@.subrange(a as int, k + 1) =~= s@.subrange(a as int, k as int).push(s@[k as int]));
        k = k + 1;
    }
    r
}

/// The command list ends with the `exit` command, whitespace aside.
pub open spec fn ends_with_exit(commands: Seq<Seq<u8>>) -> bool {
    commands.len() > 0 && trim(commands.last()) == exit_word()
}

/// Splits a `;`-separated command list. The flag is set when the last
/// command is not `exit`, which the caller reports as a warning.
pub fn parse_scanmem_commands(input: &[u8]) -> (r: (Vec<Vec<u8>>, bool))
    ensures
        views(r.0@) == split_semicolons(input@),
        r.1 == !ends_with_exit(split_semicolons(input@)),
{
    let commands = split_commands(input);
    proof {
        lemma_split_nonempty(input@);
    }
    let last_index = commands.len() - 1;
    let last = trim_ascii(commands[last_index].as_slice());
    assert(views(commands@)[last_index as int] == commands@[last_index as int]@);
    let exit = exit_request();
    let mut same = last.len() == exit.len();
    let mut i: usize = 0;
    while same && i < exit.len()
        invariant
            0 <= i <= exit@.len(),
            same ==> last@.len() == exit@.len(),
            same ==> forall|k: int| 0 <= k < i ==> last@[k] == exit@[k],
            !same ==> last@ != exit@,
        decreases exit@.len() - i,
    {
        if last[i] != exit[i] {
            same = false;
        }
        i = i + 1;
    }
    if same {
        assert(last@ =~= exit@);
    }
    (commands, !same)
}

} // verus!

//! Default widget names.
//!
//! A widget without an explicit `name` attribute gets a generated one: the
//! last segment of its qualified type path, lowercased (ASCII), followed by a
//! per-base counter.  The counter table is an explicit session context
//! threaded through the parse, so distinct sessions are independent and
//! deterministic.

use vstd::prelude::*;
use vstd::string::StrSliceExecFns;
use vstd::string::StringExecFns;

verus! {

/// View of a sequence of strings as a sequence of character sequences.
pub open spec fn strs_view(ss: Seq<String>) -> Seq<Seq<char>> {
    Seq::new(ss.len(), |i: int| ss[i]@)
}

/// Appending one string appends its characters to the sequence view.
pub proof fn lemma_strs_view_push(s: Seq<String>, x: String)
    ensures
        strs_view(s.push(x)) == strs_view(s).push(x@),
{
    assert forall|i: int| 0 <= i < s.len() + 1 implies strs_view(s.push(x))[i] == strs_view(
        s,
    ).push(x@)[i] by {
        if i < s.len() {
            assert(s.push(x)[i] == s[i]);
        } else {
            assert(s.push(x)[i] == x);
        }
    }
    assert(strs_view(s.push(x)) =~= strs_view(s).push(x@));
}

/// ASCII lowercasing of one character; all other characters are unchanged.
pub open spec fn lower_char(c: char) -> char {
    if 'A' <= c && c <= 'Z' {
        (((c as u8) + 32) as char)
    } else {
        c
    }
}

/// ASCII lowercasing of a character sequence.
pub open spec fn lower_seq(s: Seq<char>) -> Seq<char> {
    Seq::new(s.len(), |i: int| lower_char(s[i]))
}

/// The decimal digit character for `d < 10`.
pub open spec fn dec_digit_char(d: nat) -> char {
    if d == 0 {
        '0'
    } else if d == 1 {
        '1'
    } else if d == 2 {
        '2'
    } else if d == 3 {
        '3'
    } else if d == 4 {
        '4'
    } else if d == 5 {
        '5'
    } else if d == 6 {
        '6'
    } else if d == 7 {
        '7'
    } else if d == 8 {
        '8'
    } else {
        '9'
    }
}

/// Decimal rendering of a natural number, most significant digit first.
pub open spec fn dec_digits(n: nat) -> Seq<char>
    decreases n,
{
    if n < 10 {
        seq![dec_digit_char(n)]
    } else {
        dec_digits(n / 10).push(dec_digit_char(n % 10))
    }
}

/// Lowercase replacement for an ASCII uppercase letter, as a string slice.
fn upper_to_lower_str(c: char) -> (r: &'static str)
    requires
        'A' <= c && c <= 'Z',
    ensures
        r@ == seq![lower_char(c)],
{
    proof {
        reveal_strlit("a");
        reveal_strlit("b");
        reveal_strlit("c");
        reveal_strlit("d");
        reveal_strlit("e");
        reveal_strlit("f");
        reveal_strlit("g");
        reveal_strlit("h");
        reveal_strlit("i");
        reveal_strlit("j");
        reveal_strlit("k");
        reveal_strlit("l");
        reveal_strlit("m");
        reveal_strlit("n");
        reveal_strlit("o");
        reveal_strlit("p");
        reveal_strlit("q");
        reveal_strlit("r");
        reveal_strlit("s");
        reveal_strlit("t");
        reveal_strlit("u");
        reveal_strlit("v");
        reveal_strlit("w");
        reveal_strlit("x");
        reveal_strlit("y");
        reveal_strlit("z");
    }
    if c == 'A' {
        "a"
    } else if c == 'B' {
        "b"
    } else if c == 'C' {
        "c"
    } else if c == 'D' {
        "d"
    } else if c == 'E' {
        "e"
    } else if c == 'F' {
        "f"
    } else if c == 'G' {
        "g"
    } else if c == 'H' {
        "h"
    } else if c == 'I' {
        "i"
    } else if c == 'J' {
        "j"
    } else if c == 'K' {
        "k"
    } else if c == 'L' {
        "l"
    } else if c == 'M' {
        "m"
    } else if c == 'N' {
        "n"
    } else if c == 'O' {
        "o"
    } else if c == 'P' {
        "p"
    } else if c == 'Q' {
        "q"
    } else if c == 'R' {
        "r"
    } else if c == 'S' {
        "s"
    } else if c == 'T' {
        "t"
    } else if c == 'U' {
        "u"
    } else if c == 'V' {
        "v"
    } else if c == 'W' {
        "w"
    } else if c == 'X' {
        "x"
    } else if c == 'Y' {
        "y"
    } else {
        proof {
            assert(c == 'Z');
        }
        "z"
    }
}

/// ASCII lowercasing of a string.
pub fn lower_str(s: &str) -> (r: String)
    ensures
        r@ == lower_seq(s@),
{
    let n = s.unicode_len();
    let mut out = String::new();
    let mut i: usize = 0;
    while i < n
        invariant
            i <= n,
            n == s@.len(),
            out@ == lower_seq(s@).subrange(0, i as int),
        decreases n - i,
    {
        let c = s.get_char(i);
        if 'A' <= c && c <= 'Z' {
            out.append(upper_to_lower_str(c));
        } else {
            out.append(s.substring_char(i, i + 1));
            proof {
                assert(s@.subrange(i as int, i as int + 1) =~= seq![s@[i as int]]);
            }
        }
        proof {
            assert(lower_seq(s@).subrange(0, i as int + 1) =~= lower_seq(s@).subrange(
                0,
                i as int,
            ).push(lower_char(s@[i as int])));
        }
        i += 1;
    }
    proof {
        assert(lower_seq(s@).subrange(0, n as int) =~= lower_seq(s@));
    }
    out
}

/// The decimal digit string for `d < 10`.
fn digit_str(d: u64) -> (r: &'static str)
    requires
        d < 10,
    ensures
        r@ == seq![dec_digit_char(d as nat)],
{
    proof {
        reveal_strlit("0");
        reveal_strlit("1");
        reveal_strlit("2");
        reveal_strlit("3");
        reveal_strlit("4");
        reveal_strlit("5");
        reveal_strlit("6");
        reveal_strlit("7");
        reveal_strlit("8");
        reveal_strlit("9");
    }
    if d == 0 {
        "0"
    } else if d == 1 {
        "1"
    } else if d == 2 {
        "2"
    } else if d == 3 {
        "3"
    } else if d == 4 {
        "4"
    } else if d == 5 {
        "5"
    } else if d == 6 {
        "6"
    } else if d == 7 {
        "7"
    } else if d == 8 {
        "8"
    } else {
        "9"
    }
}

/// Append the decimal rendering of `n`.
pub fn append_dec(out: &mut String, n: u64)
    ensures
        final(out)@ == old(out)@ + dec_digits(n as nat),
    decreases n,
{
    if n >= 10 {
        append_dec(out, n / 10);
        out.append(digit_str(n % 10));
        proof {
            assert(old(out)@ + dec_digits(n as nat) =~= (old(out)@ + dec_digits(
                n as nat / 10,
            )).push(dec_digit_char(n as nat % 10)));
        }
    } else {
        out.append(digit_str(n));
        proof {
            assert(old(out)@ + dec_digits(n as nat) =~= old(out)@.push(
                dec_digit_char(n as nat),
            ));
        }
    }
}

/// Increment that stops at the largest representable count.
pub open spec fn sat_inc(n: u64) -> u64 {
    if n == u64::MAX {
        n
    } else {
        (n + 1) as u64
    }
}

/// Whether the counter table holds an entry for `key`.
pub open spec fn has_key(g: Seq<(Seq<char>, u64)>, key: Seq<char>) -> bool {
    exists|i: int| 0 <= i < g.len() && g[i].0 == key
}

/// The index of the entry for `key`; meaningful only when `has_key` holds and
/// keys are distinct.
pub open spec fn key_index(g: Seq<(Seq<char>, u64)>, key: Seq<char>) -> int {
    choose|i: int| 0 <= i < g.len() && g[i].0 == key
}

/// The counter value that the next name built on `key` carries.
pub open spec fn next_count(g: Seq<(Seq<char>, u64)>, key: Seq<char>) -> u64 {
    if has_key(g, key) {
        sat_inc(g[key_index(g, key)].1)
    } else {
        1
    }
}

/// The counter table after one name was drawn for `key`.
pub open spec fn bump_counts(g: Seq<(Seq<char>, u64)>, key: Seq<char>) -> Seq<(Seq<char>, u64)> {
    if has_key(g, key) {
        g.update(key_index(g, key), (key, next_count(g, key)))
    } else {
        g.push((key, 1u64))
    }
}

/// Per-session counter table: one counter per lowercased base name.
pub struct NameGen {
    counts: Vec<(String, u64)>,
}

impl View for NameGen {
    type V = Seq<(Seq<char>, u64)>;

    closed spec fn view(&self) -> Seq<(Seq<char>, u64)> {
        Seq::new(self.counts@.len(), |i: int| (self.counts@[i].0@, self.counts@[i].1))
    }
}

impl NameGen {
    /// The table never holds two entries for one base name.
    pub open spec fn wf(&self) -> bool {
        forall|i: int, j: int| 0 <= i < j < self@.len() ==> self@[i].0 != self@[j].0
    }

    /// An empty table: the start of a parse session.
    pub fn new() -> (g: NameGen)
        ensures
            g@ == Seq::<(Seq<char>, u64)>::empty(),
            g.wf(),
    {
        let g = NameGen { counts: Vec::new() };
        proof {
            assert(g@ =~= Seq::<(Seq<char>, u64)>::empty());
        }
        g
    }

    /// Draw the next counter value for `base`, recording the draw.
    fn bump(self, base: &String) -> (r: (u64, NameGen))
        requires
            self.wf(),
        ensures
            r.0 == next_count(self@, base@),
            r.1@ == bump_counts(self@, base@),
            r.1.wf(),
    {
        let mut g = self;
        let n = g.counts.len();
        let mut i: usize = 0;
        while i < n
            invariant
                i <= n,
                n == g.counts@.len(),
                g@ == self@,
                g.wf(),
                forall|k: int| 0 <= k < i ==> g@[k].0 != base@,
            decreases n - i,
        {
            if g.counts[i].0 == *base {
                let c = g.counts[i].1;
                let nc = if c == u64::MAX {
                    c
                } else {
                    c + 1
                };
                let key = g.counts[i].0.clone();
                proof {
                    assert(g@[i as int].0 == base@);
                    assert(has_key(g@, base@));
                    let j = key_index(g@, base@);
                    assert(0 <= j < g@.len() && g@[j].0 == base@);
                    assert(j == i as int);
                }
                let ghost old_view = g@;
                g.counts[i] = (key, nc);
                proof {
                    assert(g@ =~= bump_counts(old_view, base@));
                }
                return (nc, g);
            }
            i += 1;
        }
        proof {
            assert(!has_key(g@, base@));
        }
        let ghost old_view = g@;
        g.counts.push((base.clone(), 1));
        proof {
            assert(g@ =~= bump_counts(old_view, base@));
        }
        (1, g)
    }

    /// Whether `name` is the generated name for base `key` in table `g`:
    /// the lowercased base followed by the decimal counter drawn from `g`.
    pub open spec fn spec_name(g: Seq<(Seq<char>, u64)>, key: Seq<char>) -> Seq<char> {
        key + dec_digits(next_count(g, key) as nat)
    }

    /// Generate the default name for a widget whose qualified type path ends
    /// in `segments.last()`: the lowercased last segment plus a counter that
    /// increases at each draw for that base within this session.
    pub fn generate(self, segments: &Vec<String>) -> (r: (String, NameGen))
        requires
            self.wf(),
            segments@.len() > 0,
        ensures
            ({
                let base = lower_seq(strs_view(segments@).last());
                &&& r.0@ == Self::spec_name(self@, base)
                &&& r.1@ == bump_counts(self@, base)
                &&& r.1.wf()
            }),
    {
        let last = &segments[segments.len() - 1];
        let mut name = lower_str(last.as_str());
        proof {
            assert(strs_view(segments@).last() == segments@.last()@);
        }
        let (count, g) = self.bump(&name);
        append_dec(&mut name, count);
        (name, g)
    }
}

} // verus!

use vstd::prelude::*;
use vstd::string::*;

use crate::fixed::{all_digits, dec, digits_value, push_dec, read_digits};

verus! {

/// Saved slot states as text: the count on the first line, then one state
/// per line, in slot order.
pub open spec fn vars_text(v: Seq<usize>) -> Seq<char> {
    dec(v.len()) + seq!['\n'] + state_lines(v)
}

pub open spec fn state_lines(v: Seq<usize>) -> Seq<char>
    decreases v.len(),
{
    if v.len() == 0 {
        Seq::empty()
    } else {
        state_lines(v.drop_last()) + dec(v.last() as nat) + seq!['\n']
    }
}

/// End of the line that starts at `pos`: the next '\n', or the end of text.
pub open spec fn line_end(s: Seq<char>, pos: int) -> int
    decreases s.len() - pos,
{
    if pos >= s.len() || pos < 0 {
        s.len() as int
    } else if s[pos] == '\n' {
        pos
    } else {
        line_end(s, pos + 1)
    }
}

/// Start of the line after the one that starts at `pos`.
pub open spec fn next_line(s: Seq<char>, pos: int) -> int {
    let e = line_end(s, pos);
    if e < s.len() { e + 1 } else { e }
}

pub open spec fn is_blank(c: char) -> bool {
    c == ' ' || c == '\t' || c == '\r'
}

/// `l` without its trailing spaces, tabs and carriage returns.
pub open spec fn trim_end(l: Seq<char>) -> Seq<char>
    decreases l.len(),
{
    if l.len() > 0 && is_blank(l.last()) {
        trim_end(l.drop_last())
    } else {
        l
    }
}

proof fn lemma_trim_end_len(l: Seq<char>)
    ensures
        trim_end(l).len() <= l.len(),
    decreases l.len(),
{
    if l.len() > 0 && is_blank(l.last()) {
        lemma_trim_end_len(l.drop_last());
    }
}

/// A line that, trailing blanks aside, is a non-empty run of digits, and the
/// number it spells.
pub open spec fn uint_line(s: Seq<char>, pos: int) -> Option<nat> {
    let line = trim_end(s.subrange(pos, line_end(s, pos)));
    if line.len() > 0 && all_digits(line) { Some(digits_value(line)) } else { None }
}

/// `k` numbers, one per line, from the line that starts at `pos`.
pub open spec fn uint_lines(s: Seq<char>, pos: int, k: nat) -> Option<Seq<nat>>
    decreases k,
{
    if k == 0 {
        Some(Seq::empty())
    } else {
        match uint_line(s, pos) {
            None => None,
            Some(x) => match uint_lines(s, next_line(s, pos), (k - 1) as nat) {
                None => None,
                Some(rest) => Some(seq![x] + rest),
            },
        }
    }
}

/// The states that a saved file holds: a count, then that many lines of
/// one number each; what follows them is ignored. `None` when the file is
/// short or a line is not a number.
pub open spec fn vars_of(s: Seq<char>) -> Option<Seq<nat>> {
    match uint_line(s, 0) {
        None => None,
        Some(n) => uint_lines(s, next_line(s, 0), n),
    }
}

pub open spec fn as_nats(v: Seq<usize>) -> Seq<nat> {
    v.map_values(|x: usize| x as nat)
}

pub open spec fn prefixed(acc: Seq<nat>, o: Option<Seq<nat>>) -> Option<Seq<nat>> {
    match o {
        None => None,
        Some(rest) => Some(acc + rest),
    }
}

/// Text of the saved slot states.
pub fn format_vars(status: &Vec<usize>) -> (r: String)
    ensures
        r@ == vars_text(status@),
{
    let mut s = String::new();
    push_dec(&mut s, status.len() as u64);
    proof {
        reveal_strlit("\n");
    }
    s.append("\n");
    let mut i: usize = 0;
    while i < status.len()
        invariant
            i <= status@.len(),
            s@ == dec(status@.len()) + seq!['\n'] + state_lines(status@.subrange(0, i as int)),
        decreases status.len() - i,
    {
        proof {
            reveal_strlit("\n");
            let p = status@.subrange(0, i as int + 1);
            assert(p.drop_last() =~= status@.subrange(0, i as int));
        }
        push_dec(&mut s, status[i] as u64);
        s.append("\n");
        proof {
            let p = status@.subrange(0, i as int + 1);
            assert(s@ =~= dec(status@.len()) + seq!['\n'] + state_lines(p));
        }
        i = i + 1;
    }
    proof {
        assert(status@.subrange(0, status@.len() as int) =~= status@);
    }
    s
}

/// Position of the end of the line that starts at `pos`.
fn find_line_end(s: &str, n: usize, pos: usize) -> (r: usize)
    requires
        n == s@.len(),
        pos <= n,
    ensures
        r == line_end(s@, pos as int),
        pos <= r <= n,
{
    let mut i = pos;
    while i < n && s.get_char(i) != '\n'
        invariant
            n == s@.len(),
            pos <= i <= n,
            line_end(s@, pos as int) == line_end(s@, i as int),
        decreases n - i,
    {
        i = i + 1;
    }
    i
}

/// Every line read takes at least one character, so no more lines can be
/// read than characters remain.
proof fn lemma_lines_fit(s: Seq<char>, pos: int, k: nat)
    requires
        0 <= pos <= s.len(),
        k > s.len() - pos,
    ensures
        uint_lines(s, pos, k) is None,
    decreases k,
{
    if uint_line(s, pos) is Some {
        let e = line_end(s, pos);
        lemma_line_end_bounds(s, pos);
        lemma_trim_end_len(s.subrange(pos, e));
        assert(e > pos);
        lemma_lines_fit(s, next_line(s, pos), (k - 1) as nat);
    }
}

proof fn lemma_line_end_bounds(s: Seq<char>, pos: int)
    requires
        0 <= pos <= s.len(),
    ensures
        pos <= line_end(s, pos) <= s.len(),
    decreases s.len() - pos,
{
    if pos < s.len() && s[pos] != '\n' {
        lemma_line_end_bounds(s, pos + 1);
    }
}

fn blank_at(s: &str, k: usize) -> (r: bool)
    requires
        k < s@.len(),
    ensures
        r == is_blank(s@[k as int]),
{
    let c = s.get_char(k);
    c == ' ' || c == '\t' || c == '\r'
}

/// End of the line from `pos` to `e` once its trailing blanks are dropped.
fn trimmed_end(s: &str, pos: usize, e: usize) -> (r: usize)
    requires
        pos <= e <= s@.len(),
    ensures
        pos <= r <= e,
        s@.subrange(pos as int, r as int) == trim_end(s@.subrange(pos as int, e as int)),
{
    let mut i = e;
    while i > pos && blank_at(s, i - 1)
        invariant
            pos <= i <= e <= s@.len(),
            trim_end(s@.subrange(pos as int, i as int)) == trim_end(s@.subrange(pos as int, e as int)),
        decreases i,
    {
        proof {
            let l = s@.subrange(pos as int, i as int);
            assert(l.drop_last() =~= s@.subrange(pos as int, i - 1));
            assert(l.last() == s@[i - 1]);
        }
        i = i - 1;
    }
    proof {
        let l = s@.subrange(pos as int, i as int);
        if i > pos {
            assert(l.last() == s@[i - 1]);
        }
    }
    i
}

/// Reads saved slot states; `None` when the text is short, a line is not a
/// number, or a number does not fit in `usize`.
pub fn parse_vars(s: &str) -> (r: Option<Vec<usize>>)
    ensures
        r matches Some(v) ==> vars_of(s@) == Some(as_nats(v@)),
        r is None ==> (vars_of(s@) is None || exists|k: int|
            0 <= k < vars_of(s@).unwrap().len() && vars_of(s@).unwrap()[k] > usize::MAX),
{
    let n = s.unicode_len();
    let e0 = find_line_end(s, n, 0);
    let t0 = trimmed_end(s, 0, e0);
    if t0 == 0 {
        return None;
    }
    let count = match read_digits(s, 0, t0) {
        None => {
            return None;
        },
        Some(c) => c,
    };
    let ghost sv = s@;
    let ghost p1 = next_line(sv, 0);
    if count > n as u128 {
        proof {
            lemma_lines_fit(sv, p1, digits_value(sv.subrange(0, t0 as int)));
        }
        return None;
    }
    proof {
        assert(count == digits_value(sv.subrange(0, t0 as int)));
        assert(vars_of(sv) == uint_lines(sv, p1, count as nat));
    }
    let mut pos: usize = if e0 < n { e0 + 1 } else { e0 };
    let mut acc: Vec<usize> = Vec::new();
    let mut i: u128 = 0;
    proof {
        assert(as_nats(acc@) =~= Seq::<nat>::empty());
    }
    while i < count
        invariant
            n == sv.len(),
            sv == s@,
            pos <= n,
            i <= count,
            acc@.len() == i,
            prefixed(as_nats(acc@), uint_lines(sv, pos as int, (count - i) as nat)) == uint_lines(sv, p1, count as nat),
            vars_of(sv) == uint_lines(sv, p1, count as nat),
        decreases count - i,
    {
        let e = find_line_end(s, n, pos);
        let te = trimmed_end(s, pos, e);
        let next: usize = if e < n { e + 1 } else { e };
        let ghost rest_k = (count - i - 1) as nat;
        proof {
            assert(uint_lines(sv, pos as int, (count - i) as nat) == match uint_line(sv, pos as int) {
                None => None,
                Some(x) => match uint_lines(sv, next as int, rest_k) {
                    None => None,
                    Some(rest) => Some(seq![x] + rest),
                },
            });
        }
        if te == pos {
            proof {
                assert(uint_line(sv, pos as int) is None);
            }
            return None;
        }
        let x = match read_digits(s, pos, te) {
            None => {
                proof {
                    assert(uint_line(sv, pos as int) is None);
                }
                return None;
            },
            Some(x) => x,
        };
        if x > usize::MAX as u128 {
            proof {
                let whole = uint_lines(sv, p1, count as nat);
                assert(uint_line(sv, pos as int) == Some(digits_value(sv.subrange(pos as int, te as int))));
                if whole is Some {
                    let rest = uint_lines(sv, next as int, rest_k).unwrap();
                    assert(whole.unwrap() == as_nats(acc@) + (seq![digits_value(sv.subrange(pos as int, te as int))] + rest));
                    assert(whole.unwrap()[i as int] > usize::MAX);
                }
            }
            return None;
        }
        proof {
            assert(x == digits_value(sv.subrange(pos as int, te as int)));
            let o = uint_lines(sv, next as int, rest_k);
            assert(as_nats(acc@.push(x as usize)) =~= as_nats(acc@).push(x as nat));
            if o is Some {
                assert(as_nats(acc@) + (seq![x as nat] + o.unwrap()) =~= as_nats(acc@).push(x as nat) + o.unwrap());
            }
        }
        acc.push(x as usize);
        pos = next;
        i = i + 1;
    }
    proof {
        assert(as_nats(acc@) + Seq::<nat>::empty() =~= as_nats(acc@));
    }
    Some(acc)
}

proof fn lemma_digit_char(d: int)
    requires
        0 <= d < 10,
    ensures
        crate::fixed::is_digit(crate::fixed::digit_char(d)),
        crate::fixed::digit_val(crate::fixed::digit_char(d)) == d,
{
}

proof fn lemma_dec_digits(n: nat)
    ensures
        dec(n).len() > 0,
        all_digits(dec(n)),
        digits_value(dec(n)) == n,
    decreases n,
{
    lemma_digit_char((n % 10) as int);
    if n < 10 {
        assert(dec(n) =~= seq![crate::fixed::digit_char(n as int)]);
        assert(dec(n).drop_last() =~= Seq::<char>::empty());
        assert(digits_value(Seq::<char>::empty()) == 0);
        assert(n % 10 == n);
        assert(digits_value(dec(n)) == digits_value(dec(n).drop_last()) * 10 + crate::fixed::digit_val(dec(n).last()));
    } else {
        lemma_dec_digits(n / 10);
        let d = dec(n / 10);
        let c = crate::fixed::digit_char((n % 10) as int);
        assert(d.push(c).drop_last() =~= d);
        assert(dec(n) == d.push(c));
        assert(digits_value(d.push(c)) == digits_value(d) * 10 + crate::fixed::digit_val(c));
        assert((n / 10) * 10 + n % 10 == n);
        assert forall|i: int| 0 <= i < d.push(c).len() implies crate::fixed::is_digit(#[trigger] d.push(c)[i]) by {
            if i < d.len() {
                assert(d.push(c)[i] == d[i]);
            }
        }
    }
}

/// The line at `pos` runs over the `m` characters that are not '\n' and
/// stops at the '\n' after them.
proof fn lemma_line_end_at(s: Seq<char>, pos: int, m: int)
    requires
        0 <= pos,
        0 <= m,
        pos + m < s.len(),
        s[pos + m] == '\n',
        forall|i: int| pos <= i < pos + m ==> s[i] != '\n',
    ensures
        line_end(s, pos) == pos + m,
    decreases m,
{
    if m > 0 {
        lemma_line_end_at(s, pos + 1, m - 1);
    }
}

proof fn lemma_state_lines_front(v: Seq<usize>)
    requires
        v.len() > 0,
    ensures
        state_lines(v) == dec(v[0] as nat) + seq!['\n'] + state_lines(v.drop_first()),
    decreases v.len(),
{
    if v.len() > 1 {
        lemma_state_lines_front(v.drop_last());
        assert(v.drop_last().drop_first() =~= v.drop_first().drop_last());
        assert(v.drop_first().last() == v.last());
        assert(state_lines(v) =~= dec(v[0] as nat) + seq!['\n'] + state_lines(v.drop_first()));
    } else {
        assert(v.drop_last().len() == 0);
        assert(v.drop_first().len() == 0);
        assert(state_lines(v.drop_last()) == Seq::<char>::empty());
        assert(state_lines(v.drop_first()) == Seq::<char>::empty());
        assert(state_lines(v) =~= dec(v[0] as nat) + seq!['\n'] + state_lines(v.drop_first()));
    }
}

proof fn lemma_read_number_line(prefix: Seq<char>, n: nat, rest: Seq<char>)
    ensures
        ({
            let s = prefix + dec(n) + seq!['\n'] + rest;
            &&& uint_line(s, prefix.len() as int) == Some(n)
            &&& next_line(s, prefix.len() as int) == (prefix + dec(n) + seq!['\n']).len()
        }),
{
    let s = prefix + dec(n) + seq!['\n'] + rest;
    let p = prefix.len() as int;
    let m = dec(n).len() as int;
    lemma_dec_digits(n);
    assert forall|i: int| p <= i < p + m implies s[i] != '\n' by {
        assert(s[i] == dec(n)[i - p]);
        assert(crate::fixed::is_digit(dec(n)[i - p]));
    }
    assert(s[p + m] == '\n');
    lemma_line_end_at(s, p, m);
    assert(s.subrange(p, p + m) =~= dec(n));
}

proof fn lemma_read_state_lines(prefix: Seq<char>, v: Seq<usize>)
    ensures
        uint_lines(prefix + state_lines(v), prefix.len() as int, v.len()) == Some(as_nats(v)),
    decreases v.len(),
{
    if v.len() == 0 {
        assert(as_nats(v) =~= Seq::<nat>::empty());
    } else {
        lemma_state_lines_front(v);
        let rest = state_lines(v.drop_first());
        let s = prefix + state_lines(v);
        assert(s =~= prefix + dec(v[0] as nat) + seq!['\n'] + rest);
        lemma_read_number_line(prefix, v[0] as nat, rest);
        let prefix2 = prefix + dec(v[0] as nat) + seq!['\n'];
        assert(s =~= prefix2 + rest);
        lemma_read_state_lines(prefix2, v.drop_first());
        assert(as_nats(v) =~= seq![v[0] as nat] + as_nats(v.drop_first()));
    }
}

/// Saved states read back as the same states: `parse_vars` of the text that
/// `format_vars` writes gives the slots' states back, in order.
pub proof fn lemma_vars_round_trip(v: Seq<usize>)
    ensures
        vars_of(vars_text(v)) == Some(as_nats(v)),
{
    let s = vars_text(v);
    lemma_read_number_line(Seq::empty(), v.len(), state_lines(v));
    assert(s =~= Seq::<char>::empty() + dec(v.len()) + seq!['\n'] + state_lines(v));
    let prefix = dec(v.len()) + seq!['\n'];
    assert(s =~= prefix + state_lines(v));
    assert((Seq::<char>::empty() + dec(v.len()) + seq!['\n']) =~= prefix);
    lemma_read_state_lines(prefix, v);
}

} // verus!

//! The persistence codec: a canonical text form for a task collection — a
//! count header, then one record per task, every string length-prefixed —
//! together with a strict parser and a proved round trip. File I/O stays
//! outside; this module only moves between collections and text.
use crate::task::{Status, Task, TaskView};
use crate::text::{chars_of, string_from_chars};
use crate::todolist::TodoList;
use vstd::prelude::*;

verus! {

// ---------------------------------------------------------------------------
// Canonical encoding, at the specification level.
// ---------------------------------------------------------------------------
/// The character for one decimal digit.
pub open spec fn digit_char(d: nat) -> char {
    if d == 0 {
        '0'
    } else if d == 1 {
        '1'
    } else if d == 2 {
        '2'
    } else if d == 3 {
        '3'
    } else if d == 4 {
        '4'
    } else if d == 5 {
        '5'
    } else if d == 6 {
        '6'
    } else if d == 7 {
        '7'
    } else if d == 8 {
        '8'
    } else {
        '9'
    }
}

/// Whether `c` is a decimal digit.
pub open spec fn is_digit(c: char) -> bool {
    c == '0' || c == '1' || c == '2' || c == '3' || c == '4' || c == '5' || c == '6' || c == '7'
        || c == '8' || c == '9'
}

/// The value of a digit character.
pub open spec fn digit_val(c: char) -> nat {
    if c == '0' {
        0
    } else if c == '1' {
        1
    } else if c == '2' {
        2
    } else if c == '3' {
        3
    } else if c == '4' {
        4
    } else if c == '5' {
        5
    } else if c == '6' {
        6
    } else if c == '7' {
        7
    } else if c == '8' {
        8
    } else {
        9
    }
}

/// Canonical decimal digits of `n`: no leading zero except for `0` itself.
pub open spec fn spec_dec(n: nat) -> Seq<char>
    decreases n,
{
    if n < 10 {
        seq![digit_char(n)]
    } else {
        spec_dec(n / 10) + seq![digit_char(n % 10)]
    }
}

/// Canonical decimal form of a signed value.
pub open spec fn spec_int(x: int) -> Seq<char> {
    if x < 0 {
        seq!['-'] + spec_dec((-x) as nat)
    } else {
        spec_dec(x as nat)
    }
}

/// A length-prefixed string: decimal length, a colon, then the characters.
pub open spec fn spec_field(s: Seq<char>) -> Seq<char> {
    spec_dec(s.len()) + seq![':'] + s
}

/// An optional string: `-` for absent, `+` then the field for present.
pub open spec fn spec_opt(o: Option<Seq<char>>) -> Seq<char> {
    match o {
        None => seq!['-'],
        Some(s) => seq!['+'] + spec_field(s),
    }
}

/// The one-character status tag.
pub open spec fn status_char(st: Status) -> char {
    match st {
        Status::Pending => 'P',
        Status::Done => 'D',
    }
}

/// One record, right-nested so that the parser peels prefixes off directly.
pub open spec fn spec_task(t: TaskView) -> Seq<char> {
    spec_field(t.id) + (spec_field(t.title) + (spec_opt(t.notes) + (spec_int(t.priority) + (seq![
        '|',
    ] + (seq![status_char(t.status)] + (spec_int(t.created_at) + (seq!['|'] + (spec_opt(
        t.timeframe,
    ) + seq!['\n']))))))))
}

/// The records, in collection order.
pub open spec fn spec_records(l: Seq<TaskView>) -> Seq<char>
    decreases l.len(),
{
    if l.len() == 0 {
        Seq::<char>::empty()
    } else {
        spec_task(l.first()) + spec_records(l.drop_first())
    }
}

/// The whole document: the task count, a newline, then the records.
pub open spec fn spec_encode(l: Seq<TaskView>) -> Seq<char> {
    spec_dec(l.len()) + (seq!['\n'] + spec_records(l))
}

// ---------------------------------------------------------------------------
// Strict parsing, at the specification level.
// ---------------------------------------------------------------------------
/// Consume leading digits, folding them onto `acc`.
pub open spec fn parse_digits(s: Seq<char>, acc: nat) -> (nat, Seq<char>)
    decreases s.len(),
{
    if s.len() > 0 && is_digit(s.first()) {
        parse_digits(s.drop_first(), acc * 10 + digit_val(s.first()))
    } else {
        (acc, s)
    }
}

/// Parse a canonical decimal number: a lone `0`, or digits without a leading
/// zero.
pub open spec fn parse_nat(s: Seq<char>) -> Option<(nat, Seq<char>)> {
    if s.len() == 0 || !is_digit(s.first()) {
        None
    } else if s.first() == '0' {
        Some((0nat, s.drop_first()))
    } else {
        Some(parse_digits(s, 0))
    }
}

/// Parse a length-prefixed string.
pub open spec fn parse_field(s: Seq<char>) -> Option<(Seq<char>, Seq<char>)> {
    match parse_nat(s) {
        None => None,
        Some((n, r)) => if r.len() == 0 || r.first() != ':' {
            None
        } else {
            let r2 = r.drop_first();
            if n <= r2.len() {
                Some((r2.take(n as int), r2.skip(n as int)))
            } else {
                None
            }
        },
    }
}

/// Parse an optional string.
pub open spec fn parse_opt(s: Seq<char>) -> Option<(Option<Seq<char>>, Seq<char>)> {
    if s.len() == 0 {
        None
    } else if s.first() == '-' {
        Some((None, s.drop_first()))
    } else if s.first() == '+' {
        match parse_field(s.drop_first()) {
            None => None,
            Some((f, r)) => Some((Some(f), r)),
        }
    } else {
        None
    }
}

/// Parse a signed decimal number followed by its `|` terminator. `-0` is not
/// canonical and is rejected.
pub open spec fn parse_int(s: Seq<char>) -> Option<(int, Seq<char>)> {
    if s.len() > 0 && s.first() == '-' {
        match parse_nat(s.drop_first()) {
            None => None,
            Some((n, r)) => if n > 0 && r.len() > 0 && r.first() == '|' {
                Some((-(n as int), r.drop_first()))
            } else {
                None
            },
        }
    } else {
        match parse_nat(s) {
            None => None,
            Some((n, r)) => if r.len() > 0 && r.first() == '|' {
                Some((n as int, r.drop_first()))
            } else {
                None
            },
        }
    }
}

/// Parse the one-character status tag.
pub open spec fn parse_status(s: Seq<char>) -> Option<(Status, Seq<char>)> {
    if s.len() > 0 && s.first() == 'P' {
        Some((Status::Pending, s.drop_first()))
    } else if s.len() > 0 && s.first() == 'D' {
        Some((Status::Done, s.drop_first()))
    } else {
        None
    }
}

/// Parse one record, checking that the numeric fields fit their stored
/// widths.
pub open spec fn parse_task(s: Seq<char>) -> Option<(TaskView, Seq<char>)> {
    match parse_field(s) {
        None => None,
        Some((id, s1)) => match parse_field(s1) {
            None => None,
            Some((title, s2)) => match parse_opt(s2) {
                None => None,
                Some((notes, s3)) => match parse_int(s3) {
                    None => None,
                    Some((prio, s4)) => if !(i8::MIN <= prio <= i8::MAX) {
                        None
                    } else {
                        match parse_status(s4) {
                            None => None,
                            Some((st, s5)) => match parse_int(s5) {
                                None => None,
                                Some((ts, s6)) => if !(i64::MIN <= ts <= i64::MAX) {
                                    None
                                } else {
                                    match parse_opt(s6) {
                                        None => None,
                                        Some((tf, s7)) => if s7.len() > 0 && s7.first() == '\n' {
                                            Some(
                                                (
                                                    TaskView {
                                                        id,
                                                        title,
                                                        notes,
                                                        priority: prio,
                                                        status: st,
                                                        created_at: ts,
                                                        timeframe: tf,
                                                    },
                                                    s7.drop_first(),
                                                ),
                                            )
                                        } else {
                                            None
                                        },
                                    }
                                },
                            },
                        }
                    },
                },
            },
        },
    }
}

/// Parse exactly `count` records and then the end of input.
pub open spec fn parse_records(s: Seq<char>, count: nat) -> Option<Seq<TaskView>>
    decreases count,
{
    if count == 0 {
        if s.len() == 0 {
            Some(Seq::<TaskView>::empty())
        } else {
            None
        }
    } else {
        match parse_task(s) {
            None => None,
            Some((t, r)) => match parse_records(r, (count - 1) as nat) {
                None => None,
                Some(l) => Some(seq![t] + l),
            },
        }
    }
}

/// The whole document, strictly.
pub open spec fn spec_decode(s: Seq<char>) -> Option<Seq<TaskView>> {
    match parse_nat(s) {
        None => None,
        Some((count, r)) => if r.len() > 0 && r.first() == '\n' {
            parse_records(r.drop_first(), count)
        } else {
            None
        },
    }
}

/// Every numeric field of every task fits its stored width. True of any
/// collection the executable code can hold.
pub open spec fn bounded_tasks(l: Seq<TaskView>) -> bool {
    forall|i: int|
        0 <= i < l.len() ==> (i8::MIN <= #[trigger] l[i].priority <= i8::MAX && i64::MIN
            <= l[i].created_at <= i64::MAX)
}

// ---------------------------------------------------------------------------
// Round-trip lemmas.
// ---------------------------------------------------------------------------
/// The power of ten one past the leading digit of `n`.
pub open spec fn dec_shift(n: nat) -> nat
    decreases n,
{
    if n < 10 {
        10
    } else {
        dec_shift(n / 10) * 10
    }
}

/// Folding the canonical digits of `n` onto `acc` scales `acc` and adds `n`.
proof fn lemma_parse_digits_append(n: nat, tail: Seq<char>, acc: nat)
    ensures
        parse_digits(spec_dec(n) + tail, acc) == parse_digits(tail, acc * dec_shift(n) + n),
    decreases n,
{
    if n < 10 {
        let s = spec_dec(n) + tail;
        assert(s.first() == digit_char(n));
        assert(is_digit(digit_char(n)) && digit_val(digit_char(n)) == n);
        assert(s.drop_first() =~= tail);
        assert(s.len() > 0);
    } else {
        let q = n / 10;
        let r = n % 10;
        let tail2 = seq![digit_char(r)] + tail;
        assert(spec_dec(n) + tail =~= spec_dec(q) + tail2);
        lemma_parse_digits_append(q, tail2, acc);
        let a = acc * dec_shift(q) + q;
        assert(tail2.first() == digit_char(r));
        assert(is_digit(digit_char(r)) && digit_val(digit_char(r)) == r);
        assert(tail2.drop_first() =~= tail);
        assert(tail2.len() > 0);
        assert(parse_digits(tail2, a) == parse_digits(tail, a * 10 + r));
        assert(a * 10 + r == acc * dec_shift(n) + n) by (nonlinear_arith)
            requires
                a == acc * dec_shift(q) + q,
                n == 10 * q + r,
                dec_shift(n) == dec_shift(q) * 10,
        ;
    }
}

/// The canonical digits start with a digit, a nonzero one unless `n` is zero.
proof fn lemma_dec_first(n: nat)
    ensures
        spec_dec(n).len() >= 1,
        is_digit(spec_dec(n).first()),
        n >= 1 ==> spec_dec(n).first() != '0',
    decreases n,
{
    if n >= 10 {
        lemma_dec_first(n / 10);
        assert(spec_dec(n).first() == spec_dec(n / 10).first());
    }
}

/// Parsing the canonical digits of `n` before a non-digit yields `n` exactly.
proof fn lemma_parse_nat_dec(n: nat, tail: Seq<char>)
    requires
        tail.len() == 0 || !is_digit(tail.first()),
    ensures
        parse_nat(spec_dec(n) + tail) == Some((n, tail)),
{
    let s = spec_dec(n) + tail;
    lemma_dec_first(n);
    assert(s.first() == spec_dec(n).first());
    if n == 0 {
        assert(spec_dec(0) =~= seq!['0']);
        assert(s.drop_first() =~= tail);
    } else {
        assert(s.first() != '0');
        lemma_parse_digits_append(n, tail, 0);
        assert(0 * dec_shift(n) + n == n);
        assert(parse_digits(tail, n) == (n, tail));
    }
}

/// Parsing an encoded field yields the string exactly.
proof fn lemma_parse_field_rt(s: Seq<char>, tail: Seq<char>)
    ensures
        parse_field(spec_field(s) + tail) == Some((s, tail)),
{
    let tail2 = seq![':'] + (s + tail);
    assert(spec_field(s) + tail =~= spec_dec(s.len()) + tail2);
    lemma_parse_nat_dec(s.len(), tail2);
    assert(tail2.first() == ':');
    let r2 = tail2.drop_first();
    assert(r2 =~= s + tail);
    assert(r2.take(s.len() as int) =~= s);
    assert(r2.skip(s.len() as int) =~= tail);
}

/// Parsing an encoded optional field yields it exactly.
proof fn lemma_parse_opt_rt(o: Option<Seq<char>>, tail: Seq<char>)
    ensures
        parse_opt(spec_opt(o) + tail) == Some((o, tail)),
{
    match o {
        None => {
            let s = spec_opt(o) + tail;
            assert(s.first() == '-');
            assert(s.drop_first() =~= tail);
        },
        Some(f) => {
            let s = spec_opt(o) + tail;
            assert(s.first() == '+');
            assert(s.drop_first() =~= spec_field(f) + tail);
            lemma_parse_field_rt(f, tail);
        },
    }
}

/// Parsing an encoded signed number and its terminator yields it exactly.
proof fn lemma_parse_int_rt(x: int, tail: Seq<char>)
    ensures
        parse_int(spec_int(x) + (seq!['|'] + tail)) == Some((x, tail)),
{
    let s = spec_int(x) + (seq!['|'] + tail);
    if x < 0 {
        let m = (-x) as nat;
        assert(s.first() == '-');
        assert(s.drop_first() =~= spec_dec(m) + (seq!['|'] + tail));
        lemma_parse_nat_dec(m, seq!['|'] + tail);
        assert((seq!['|'] + tail).first() == '|');
        assert((seq!['|'] + tail).drop_first() =~= tail);
        assert(m > 0);
    } else {
        lemma_dec_first(x as nat);
        assert(s =~= spec_dec(x as nat) + (seq!['|'] + tail));
        assert(s.first() == spec_dec(x as nat).first());
        assert(s.first() != '-');
        lemma_parse_nat_dec(x as nat, seq!['|'] + tail);
        assert((seq!['|'] + tail).first() == '|');
        assert((seq!['|'] + tail).drop_first() =~= tail);
    }
}

/// Parsing an encoded record yields the task exactly.
#[verifier::rlimit(100)]
#[verifier::spinoff_prover]
proof fn lemma_parse_task_rt(t: TaskView, tail: Seq<char>)
    requires
        i8::MIN <= t.priority <= i8::MAX,
        i64::MIN <= t.created_at <= i64::MAX,
    ensures
        parse_task(spec_task(t) + tail) == Some((t, tail)),
{
    let s7 = seq!['\n'] + tail;
    let s6 = spec_opt(t.timeframe) + s7;
    let s5 = spec_int(t.created_at) + (seq!['|'] + s6);
    let s4 = seq![status_char(t.status)] + s5;
    let s3 = spec_int(t.priority) + (seq!['|'] + s4);
    let s2 = spec_opt(t.notes) + s3;
    let s1 = spec_field(t.title) + s2;
    let s0 = spec_field(t.id) + s1;
    assert(spec_task(t) + tail =~= s0);
    lemma_parse_field_rt(t.id, s1);
    lemma_parse_field_rt(t.title, s2);
    lemma_parse_opt_rt(t.notes, s3);
    lemma_parse_int_rt(t.priority, s4);
    assert(s4.first() == status_char(t.status));
    assert(s4.drop_first() =~= s5);
    lemma_parse_int_rt(t.created_at, s6);
    lemma_parse_opt_rt(t.timeframe, s7);
    assert(s7.first() == '\n');
    assert(s7.drop_first() =~= tail);
    assert(parse_task(s0) == Some((t, tail))) by {
        assert(parse_status(s4) == Some((t.status, s5))) by {
            match t.status {
                Status::Pending => {
                },
                Status::Done => {
                },
            }
        }
        let parsed = TaskView {
            id: t.id,
            title: t.title,
            notes: t.notes,
            priority: t.priority,
            status: t.status,
            created_at: t.created_at,
            timeframe: t.timeframe,
        };
        assert(parsed =~~= t);
    }
}

/// Parsing the encoded records of `l`, `l.len()` of them, yields `l` exactly.
proof fn lemma_parse_records_rt(l: Seq<TaskView>)
    requires
        bounded_tasks(l),
    ensures
        parse_records(spec_records(l), l.len()) == Some(l),
    decreases l.len(),
{
    if l.len() == 0 {
        assert(spec_records(l).len() == 0);
        assert(parse_records(spec_records(l), 0) == Some(Seq::<TaskView>::empty()));
        assert(l =~= Seq::<TaskView>::empty());
    } else {
        let t = l.first();
        let rest = l.drop_first();
        assert(bounded_tasks(rest)) by {
            assert(forall|i: int| 0 <= i < rest.len() ==> rest[i] == l[i + 1]);
        }
        assert(i8::MIN <= t.priority <= i8::MAX && i64::MIN <= t.created_at <= i64::MAX) by {
            assert(l[0] == t);
        }
        lemma_parse_task_rt(t, spec_records(rest));
        lemma_parse_records_rt(rest);
        assert(seq![t] + rest =~= l);
    }
}

// ---------------------------------------------------------------------------
// The executable encoder.
// ---------------------------------------------------------------------------
/// The character for one digit value.
fn digit_of(n: u64) -> (c: char)
    requires
        n < 10,
    ensures
        c == digit_char(n as nat),
{
    if n == 0 {
        '0'
    } else if n == 1 {
        '1'
    } else if n == 2 {
        '2'
    } else if n == 3 {
        '3'
    } else if n == 4 {
        '4'
    } else if n == 5 {
        '5'
    } else if n == 6 {
        '6'
    } else if n == 7 {
        '7'
    } else if n == 8 {
        '8'
    } else {
        '9'
    }
}

/// Append the canonical decimal digits of `n`.
fn push_dec(out: &mut Vec<char>, n: u64)
    ensures
        final(out)@ == old(out)@ + spec_dec(n as nat),
    decreases n,
{
    if n < 10 {
        out.push(digit_of(n));
        assert(out@ =~= old(out)@ + spec_dec(n as nat));
    } else {
        push_dec(out, n / 10);
        out.push(digit_of(n % 10));
        assert(out@ =~= old(out)@ + spec_dec(n as nat));
    }
}

/// Append the canonical decimal form of `v`.
fn push_int(out: &mut Vec<char>, v: i64)
    ensures
        final(out)@ == old(out)@ + spec_int(v as int),
{
    if v < 0 {
        out.push('-');
        let mag: u64 = if v == i64::MIN {
            9223372036854775808u64
        } else {
            (-v) as u64
        };
        assert(mag as nat == (-(v as int)) as nat);
        push_dec(out, mag);
        assert(out@ =~= old(out)@ + spec_int(v as int));
    } else {
        push_dec(out, v as u64);
    }
}

/// Append a length-prefixed string.
fn push_field(out: &mut Vec<char>, s: &str)
    ensures
        final(out)@ == old(out)@ + spec_field(s@),
{
    let cs = chars_of(s);
    push_dec(out, cs.len() as u64);
    out.push(':');
    let mut i: usize = 0;
    while i < cs.len()
        invariant
            i <= cs.len(),
            cs@ == s@,
            out@ == old(out)@ + spec_dec(s@.len()) + seq![':'] + cs@.take(i as int),
        decreases cs.len() - i,
    {
        out.push(cs[i]);
        i = i + 1;
        assert(out@ =~= old(out)@ + spec_dec(s@.len()) + seq![':'] + cs@.take(i as int));
    }
    assert(out@ =~= old(out)@ + spec_field(s@));
}

/// Append an optional string.
fn push_opt(out: &mut Vec<char>, o: &Option<String>)
    ensures
        final(out)@ == old(out)@ + spec_opt(o.deep_view()),
{
    match o {
        None => {
            out.push('-');
            assert(out@ =~= old(out)@ + spec_opt(o.deep_view()));
        },
        Some(s) => {
            out.push('+');
            push_field(out, s.as_str());
            assert(out@ =~= old(out)@ + spec_opt(o.deep_view()));
        },
    }
}

/// Append one record.
#[verifier::rlimit(100)]
#[verifier::spinoff_prover]
fn push_task(out: &mut Vec<char>, t: &Task)
    ensures
        final(out)@ == old(out)@ + spec_task(t@),
{
    push_field(out, t.id.as_str());
    push_field(out, t.title.as_str());
    push_opt(out, &t.notes);
    push_int(out, t.priority as i64);
    out.push('|');
    match t.status {
        Status::Pending => out.push('P'),
        Status::Done => out.push('D'),
    }
    push_int(out, t.created_at);
    out.push('|');
    push_opt(out, &t.timeframe);
    out.push('\n');
    assert(out@ =~= old(out)@ + spec_task(t@));
}

/// Appending one more record extends the encoded records by that record.
proof fn lemma_records_snoc(l: Seq<TaskView>, t: TaskView)
    ensures
        spec_records(l.push(t)) == spec_records(l) + spec_task(t),
    decreases l.len(),
{
    if l.len() == 0 {
        assert(l.push(t).first() == t);
        assert(l.push(t).drop_first() =~= Seq::<TaskView>::empty());
        assert(spec_records(Seq::<TaskView>::empty()) =~= Seq::<char>::empty());
        assert(spec_records(l.push(t)) =~= spec_task(t));
        assert(spec_records(l) + spec_task(t) =~= spec_task(t));
    } else {
        assert(l.push(t).drop_first() =~= l.drop_first().push(t));
        lemma_records_snoc(l.drop_first(), t);
        assert(spec_task(l.first()) + (spec_records(l.drop_first()) + spec_task(t)) =~= (spec_task(
            l.first(),
        ) + spec_records(l.drop_first())) + spec_task(t));
    }
}

/// Encode a collection into its canonical text form.
pub fn encode_list(list: &TodoList) -> (r: String)
    ensures
        r@ == spec_encode(list@),
{
    let mut out: Vec<char> = Vec::new();
    let count = list.items.len();
    push_dec(&mut out, count as u64);
    out.push('\n');
    proof {
        assert(list@.take(0) =~= Seq::<TaskView>::empty());
        assert(out@ =~= spec_dec(list@.len()) + seq!['\n'] + spec_records(list@.take(0)));
    }
    let mut i: usize = 0;
    while i < count
        invariant
            i <= count,
            count == list@.len(),
            out@ == spec_dec(list@.len()) + seq!['\n'] + spec_records(list@.take(i as int)),
        decreases count - i,
    {
        push_task(&mut out, &list.items[i]);
        proof {
            lemma_records_snoc(list@.take(i as int), list@[i as int]);
            assert(list@.take(i + 1) =~= list@.take(i as int).push(list@[i as int]));
            assert(out@ =~= spec_dec(list@.len()) + seq!['\n'] + spec_records(list@.take(i + 1)));
        }
        i = i + 1;
    }
    proof {
        assert(list@.take(count as int) =~= list@);
        assert(out@ =~= spec_encode(list@));
    }
    string_from_chars(&out)
}

// ---------------------------------------------------------------------------
// Progress lemmas: every parser returns a strict suffix.
// ---------------------------------------------------------------------------
/// Digit folding never grows the remainder and never shrinks the value.
proof fn lemma_parse_digits_bounds(s: Seq<char>, acc: nat)
    ensures
        parse_digits(s, acc).1.len() <= s.len(),
        parse_digits(s, acc).0 >= acc,
    decreases s.len(),
{
    if s.len() > 0 && is_digit(s.first()) {
        lemma_parse_digits_bounds(s.drop_first(), acc * 10 + digit_val(s.first()));
    }
}

/// A parsed number consumes at least one character.
proof fn lemma_parse_nat_progress(s: Seq<char>)
    requires
        parse_nat(s) is Some,
    ensures
        (parse_nat(s)->0).1.len() < s.len(),
{
    if s.first() != '0' {
        lemma_parse_digits_bounds(s.drop_first(), digit_val(s.first()));
    }
}

/// A parsed field consumes at least one character.
proof fn lemma_parse_field_progress(s: Seq<char>)
    requires
        parse_field(s) is Some,
    ensures
        (parse_field(s)->0).1.len() < s.len(),
{
    lemma_parse_nat_progress(s);
}

/// A parsed optional field consumes at least one character.
proof fn lemma_parse_opt_progress(s: Seq<char>)
    requires
        parse_opt(s) is Some,
    ensures
        (parse_opt(s)->0).1.len() < s.len(),
{
    if s.len() > 0 && s.first() == '+' {
        lemma_parse_field_progress(s.drop_first());
    }
}

/// A parsed number with its terminator consumes at least one character.
proof fn lemma_parse_int_progress(s: Seq<char>)
    requires
        parse_int(s) is Some,
    ensures
        (parse_int(s)->0).1.len() < s.len(),
{
    if s.len() > 0 && s.first() == '-' {
        lemma_parse_nat_progress(s.drop_first());
    } else {
        lemma_parse_nat_progress(s);
    }
}

/// A parsed record consumes at least one character.
proof fn lemma_parse_task_progress(s: Seq<char>)
    requires
        parse_task(s) is Some,
    ensures
        (parse_task(s)->0).1.len() < s.len(),
{
    lemma_parse_field_progress(s);
    let s1 = (parse_field(s)->0).1;
    lemma_parse_field_progress(s1);
    let s2 = (parse_field(s1)->0).1;
    lemma_parse_opt_progress(s2);
    let s3 = (parse_opt(s2)->0).1;
    lemma_parse_int_progress(s3);
    let s4 = (parse_int(s3)->0).1;
    let s5 = (parse_status(s4)->0).1;
    lemma_parse_int_progress(s5);
    let s6 = (parse_int(s5)->0).1;
    lemma_parse_opt_progress(s6);
}

/// More records than characters cannot parse.
proof fn lemma_records_too_long(s: Seq<char>, count: nat)
    requires
        count > s.len(),
    ensures
        parse_records(s, count) is None,
    decreases count,
{
    if count > 0 && parse_task(s) is Some {
        lemma_parse_task_progress(s);
        lemma_records_too_long((parse_task(s)->0).1, (count - 1) as nat);
    }
}

// ---------------------------------------------------------------------------
// The executable decoder: a cursor over the characters.
// ---------------------------------------------------------------------------
/// Executable test for [`is_digit`].
fn is_digit_exec(c: char) -> (r: bool)
    ensures
        r == is_digit(c),
{
    c == '0' || c == '1' || c == '2' || c == '3' || c == '4' || c == '5' || c == '6' || c == '7'
        || c == '8' || c == '9'
}

/// The value of a digit character.
fn digit_val_exec(c: char) -> (d: u64)
    requires
        is_digit(c),
    ensures
        d == digit_val(c),
        d < 10,
{
    if c == '0' {
        0
    } else if c == '1' {
        1
    } else if c == '2' {
        2
    } else if c == '3' {
        3
    } else if c == '4' {
        4
    } else if c == '5' {
        5
    } else if c == '6' {
        6
    } else if c == '7' {
        7
    } else if c == '8' {
        8
    } else {
        9
    }
}

/// Parse a canonical number at `pos`. `None` when there is none, or when its
/// value does not fit a `u64`.
fn d_nat(v: &Vec<char>, pos: usize) -> (r: Option<(u64, usize)>)
    requires
        pos <= v@.len(),
    ensures
        match r {
            Some(pr) => pos <= pr.1 <= v@.len() && parse_nat(v@.skip(pos as int)) == Some(
                ((pr.0 as nat), v@.skip(pr.1 as int)),
            ),
            None => parse_nat(v@.skip(pos as int)) is None || (parse_nat(v@.skip(pos as int))
                is Some && (parse_nat(v@.skip(pos as int))->0).0 > u64::MAX),
        },
{
    let ghost s = v@.skip(pos as int);
    let total = v.len();
    if pos == total {
        return None;
    }
    assert(s.first() == v@[pos as int]);
    if !is_digit_exec(v[pos]) {
        return None;
    }
    if v[pos] == '0' {
        proof {
            assert(s.drop_first() =~= v@.skip(pos as int + 1));
        }
        return Some((0, pos + 1));
    }
    let mut p = pos;
    let mut acc: u64 = 0;
    while p < total && is_digit_exec(v[p])
        invariant
            pos <= p <= total,
            total == v@.len(),
            s == v@.skip(pos as int),
            s.len() > 0 && is_digit(s.first()) && s.first() != '0',
            parse_digits(s, 0) == parse_digits(v@.skip(p as int), acc as nat),
        decreases total - p,
    {
        let c = v[p];
        let d = digit_val_exec(c);
        let ghost scur = v@.skip(p as int);
        proof {
            assert(scur.first() == v@[p as int]);
            assert(scur.drop_first() =~= v@.skip(p as int + 1));
        }
        if acc > (u64::MAX - d) / 10 {
            proof {
                let a2 = (acc as nat) * 10 + digit_val(c);
                assert(parse_digits(scur, acc as nat) == parse_digits(scur.drop_first(), a2));
                lemma_parse_digits_bounds(scur.drop_first(), a2);
                assert(a2 > u64::MAX);
            }
            return None;
        }
        acc = acc * 10 + d;
        p = p + 1;
    }
    proof {
        let scur = v@.skip(p as int);
        if p < total {
            assert(scur.first() == v@[p as int]);
            assert(!is_digit(scur.first()));
        } else {
            assert(scur.len() == 0);
        }
        assert(parse_digits(scur, acc as nat) == ((acc as nat), scur));
    }
    Some((acc, p))
}

/// Parse a length-prefixed string at `pos`.
fn d_field(v: &Vec<char>, pos: usize) -> (r: Option<(Vec<char>, usize)>)
    requires
        pos <= v@.len(),
    ensures
        match r {
            Some(pr) => pos <= pr.1 <= v@.len() && parse_field(v@.skip(pos as int)) == Some(
                (pr.0@, v@.skip(pr.1 as int)),
            ),
            None => parse_field(v@.skip(pos as int)) is None,
        },
{
    let ghost s = v@.skip(pos as int);
    let total = v.len();
    match d_nat(v, pos) {
        None => {
            proof {
                if parse_nat(s) is Some {
                    lemma_parse_nat_progress(s);
                }
            }
            None
        },
        Some((n, p1)) => {
            if p1 == total {
                return None;
            }
            assert(v@.skip(p1 as int).first() == v@[p1 as int]);
            if v[p1] != ':' {
                return None;
            }
            let p2 = p1 + 1;
            proof {
                assert(v@.skip(p1 as int).drop_first() =~= v@.skip(p2 as int));
            }
            let rem = total - p2;
            if n > rem as u64 {
                return None;
            }
            let n_us = n as usize;
            let mut f: Vec<char> = Vec::new();
            let mut i: usize = 0;
            while i < n_us
                invariant
                    i <= n_us,
                    p2 + n_us <= total,
                    total == v@.len(),
                    f@ == v@.subrange(p2 as int, p2 as int + i as int),
                decreases n_us - i,
            {
                f.push(v[p2 + i]);
                i = i + 1;
                assert(f@ =~= v@.subrange(p2 as int, p2 as int + i as int));
            }
            proof {
                assert(f@ =~= v@.skip(p2 as int).take(n as int));
                assert(v@.skip(p2 as int).skip(n as int) =~= v@.skip(p2 as int + n as int));
            }
            Some((f, p2 + n_us))
        },
    }
}

/// Parse an optional string at `pos`.
fn d_opt(v: &Vec<char>, pos: usize) -> (r: Option<(Option<Vec<char>>, usize)>)
    requires
        pos <= v@.len(),
    ensures
        match r {
            Some(pr) => pos <= pr.1 <= v@.len() && parse_opt(v@.skip(pos as int)) == Some(
                (pr.0.deep_view(), v@.skip(pr.1 as int)),
            ),
            None => parse_opt(v@.skip(pos as int)) is None,
        },
{
    let ghost s = v@.skip(pos as int);
    let total = v.len();
    if pos == total {
        return None;
    }
    assert(s.first() == v@[pos as int]);
    if v[pos] == '-' {
        proof {
            assert(s.drop_first() =~= v@.skip(pos as int + 1));
        }
        return Some((None, pos + 1));
    }
    if v[pos] != '+' {
        return None;
    }
    proof {
        assert(s.drop_first() =~= v@.skip(pos as int + 1));
    }
    match d_field(v, pos + 1) {
        None => None,
        Some((f, p1)) => Some((Some(f), p1)),
    }
}

/// Parse a signed number and its terminator at `pos`. `None` when there is
/// none, or when the value does not fit an `i64`.
fn d_int(v: &Vec<char>, pos: usize) -> (r: Option<(i64, usize)>)
    requires
        pos <= v@.len(),
    ensures
        match r {
            Some(pr) => pos <= pr.1 <= v@.len() && parse_int(v@.skip(pos as int)) == Some(
                ((pr.0 as int), v@.skip(pr.1 as int)),
            ),
            None => parse_int(v@.skip(pos as int)) is None || (parse_int(v@.skip(pos as int))
                is Some && !(i64::MIN <= (parse_int(v@.skip(pos as int))->0).0 <= i64::MAX)),
        },
{
    let ghost s = v@.skip(pos as int);
    let total = v.len();
    if pos < total && v[pos] == '-' {
        assert(s.first() == v@[pos as int]);
        proof {
            assert(s.drop_first() =~= v@.skip(pos as int + 1));
        }
        match d_nat(v, pos + 1) {
            None => None,
            Some((n, p1)) => {
                if n == 0 {
                    return None;
                }
                if n > 9223372036854775808u64 {
                    return None;
                }
                if p1 == total {
                    return None;
                }
                assert(v@.skip(p1 as int).first() == v@[p1 as int]);
                if v[p1] != '|' {
                    return None;
                }
                let x: i64 = if n == 9223372036854775808u64 {
                    i64::MIN
                } else {
                    -(n as i64)
                };
                proof {
                    assert(x as int == -(n as int));
                    assert(v@.skip(p1 as int).drop_first() =~= v@.skip(p1 as int + 1));
                }
                Some((x, p1 + 1))
            },
        }
    } else {
        match d_nat(v, pos) {
            None => None,
            Some((n, p1)) => {
                if n > 9223372036854775807u64 {
                    return None;
                }
                if p1 == total {
                    return None;
                }
                assert(v@.skip(p1 as int).first() == v@[p1 as int]);
                if v[p1] != '|' {
                    return None;
                }
                proof {
                    assert(v@.skip(p1 as int).drop_first() =~= v@.skip(p1 as int + 1));
                }
                Some((n as i64, p1 + 1))
            },
        }
    }
}

/// Parse the status tag at `pos`.
fn d_status(v: &Vec<char>, pos: usize) -> (r: Option<(Status, usize)>)
    requires
        pos <= v@.len(),
    ensures
        match r {
            Some(pr) => pos <= pr.1 <= v@.len() && parse_status(v@.skip(pos as int)) == Some(
                (pr.0, v@.skip(pr.1 as int)),
            ),
            None => parse_status(v@.skip(pos as int)) is None,
        },
{
    let ghost s = v@.skip(pos as int);
    let total = v.len();
    if pos == total {
        return None;
    }
    assert(s.first() == v@[pos as int]);
    proof {
        assert(s.drop_first() =~= v@.skip(pos as int + 1));
    }
    if v[pos] == 'P' {
        Some((Status::Pending, pos + 1))
    } else if v[pos] == 'D' {
        Some((Status::Done, pos + 1))
    } else {
        None
    }
}

/// Parse one record at `pos`.
#[verifier::rlimit(100)]
#[verifier::spinoff_prover]
fn d_task(v: &Vec<char>, pos: usize) -> (r: Option<(Task, usize)>)
    requires
        pos <= v@.len(),
    ensures
        match r {
            Some(pr) => pos <= pr.1 <= v@.len() && parse_task(v@.skip(pos as int)) == Some(
                (pr.0@, v@.skip(pr.1 as int)),
            ),
            None => parse_task(v@.skip(pos as int)) is None,
        },
{
    let total = v.len();
    let (idv, p1) = match d_field(v, pos) {
        None => {
            return None;
        },
        Some(pr) => pr,
    };
    let (titlev, p2) = match d_field(v, p1) {
        None => {
            return None;
        },
        Some(pr) => pr,
    };
    let (notesv, p3) = match d_opt(v, p2) {
        None => {
            return None;
        },
        Some(pr) => pr,
    };
    let (prio, p4) = match d_int(v, p3) {
        None => {
            return None;
        },
        Some(pr) => pr,
    };
    if prio < -128 || prio > 127 {
        return None;
    }
    let (st, p5) = match d_status(v, p4) {
        None => {
            return None;
        },
        Some(pr) => pr,
    };
    let (ts, p6) = match d_int(v, p5) {
        None => {
            return None;
        },
        Some(pr) => pr,
    };
    let (tfv, p7) = match d_opt(v, p6) {
        None => {
            return None;
        },
        Some(pr) => pr,
    };
    if p7 == total {
        return None;
    }
    assert(v@.skip(p7 as int).first() == v@[p7 as int]);
    if v[p7] != '\n' {
        return None;
    }
    proof {
        assert(v@.skip(p7 as int).drop_first() =~= v@.skip(p7 as int + 1));
    }
    let id = string_from_chars(&idv);
    let title = string_from_chars(&titlev);
    let notes: Option<String> = match notesv {
        None => None,
        Some(f) => Some(string_from_chars(&f)),
    };
    let timeframe: Option<String> = match tfv {
        None => None,
        Some(f) => Some(string_from_chars(&f)),
    };
    let t = Task {
        id,
        title,
        notes,
        priority: prio as i8,
        status: st,
        created_at: ts,
        timeframe,
    };
    proof {
        assert(t@ =~~= (parse_task(v@.skip(pos as int))->0).0);
    }
    Some((t, p7 + 1))
}

/// Decode a document into a collection: `None` exactly when the text is not
/// the canonical encoding of any collection.
pub fn decode_list(s: &str) -> (r: Option<TodoList>)
    ensures
        match r {
            Some(l) => spec_decode(s@) == Some(l@),
            None => spec_decode(s@) is None,
        },
{
    let v = chars_of(s);
    let total = v.len();
    let (count, p0) = match d_nat(&v, 0) {
        None => {
            proof {
                assert(v@.skip(0) =~= s@);
                if parse_nat(s@) is Some {
                    lemma_parse_nat_progress(s@);
                    let cnt = (parse_nat(s@)->0).0;
                    let rest = (parse_nat(s@)->0).1;
                    if rest.len() > 0 && rest.first() == '\n' {
                        lemma_records_too_long(rest.drop_first(), cnt);
                    }
                }
            }
            return None;
        },
        Some(pr) => pr,
    };
    proof {
        assert(v@.skip(0) =~= s@);
    }
    if p0 == total {
        return None;
    }
    assert(v@.skip(p0 as int).first() == v@[p0 as int]);
    if v[p0] != '\n' {
        return None;
    }
    let start = p0 + 1;
    proof {
        assert(v@.skip(p0 as int).drop_first() =~= v@.skip(start as int));
    }
    if count > (total - start) as u64 {
        proof {
            lemma_records_too_long(v@.skip(start as int), count as nat);
        }
        return None;
    }
    let count_us = count as usize;
    let mut items: Vec<Task> = Vec::new();
    let mut p = start;
    let mut i: usize = 0;
    proof {
        assert(items.deep_view() =~= Seq::<TaskView>::empty());
        assert(items.deep_view() + (parse_records(v@.skip(start as int), count as nat)->0)
            =~= (parse_records(v@.skip(start as int), count as nat)->0));
    }
    while i < count_us
        invariant
            i <= count_us,
            start <= p <= v@.len(),
            total == v@.len(),
            v@ == s@.skip(0),
            spec_decode(s@) == parse_records(v@.skip(start as int), count_us as nat),
            parse_records(v@.skip(start as int), count_us as nat) == (match parse_records(
                v@.skip(p as int),
                (count_us - i) as nat,
            ) {
                None => None::<Seq<TaskView>>,
                Some(l2) => Some(items.deep_view() + l2),
            }),
        decreases count_us - i,
    {
        match d_task(&v, p) {
            None => {
                return None;
            },
            Some((t, p2)) => {
                let ghost items_pre = items.deep_view();
                items.push(t);
                proof {
                    assert(items.deep_view() =~= items_pre.push(t@));
                    let k = (count_us - i) as nat;
                    let l2full = parse_records(v@.skip(p as int), k);
                    if parse_records(v@.skip(p2 as int), (k - 1) as nat) is Some {
                        let l2 = parse_records(v@.skip(p2 as int), (k - 1) as nat)->0;
                        assert(items_pre + (seq![t@] + l2) =~= items_pre.push(t@) + l2);
                    }
                }
                p = p2;
                i = i + 1;
            },
        }
    }
    if p != total {
        return None;
    }
    proof {
        assert(v@.skip(p as int).len() == 0);
        assert(parse_records(v@.skip(p as int), 0) == Some(Seq::<TaskView>::empty()));
        assert(items.deep_view() + Seq::<TaskView>::empty() =~= items.deep_view());
    }
    let list = TodoList { items };
    Some(list)
}

/// The round trip: decoding an encoded collection restores it exactly.
pub proof fn lemma_round_trip(l: Seq<TaskView>)
    requires
        bounded_tasks(l),
    ensures
        spec_decode(spec_encode(l)) == Some(l),
{
    let tail = seq!['\n'] + spec_records(l);
    lemma_parse_nat_dec(l.len(), tail);
    assert(tail.first() == '\n');
    assert(tail.drop_first() =~= spec_records(l));
    lemma_parse_records_rt(l);
}

} // verus!

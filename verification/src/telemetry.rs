//! Semantic checkpoints: the file written before a compaction and its name.
use vstd::prelude::*;
use crate::text::{append, chars_of, decimal, owned, push_char, replace_all, replace_text, zero_pad, zero_padded};

verus! {

broadcast use vstd::seq_lib::group_seq_properties;

/// The checkpoint file's template; `{ts}`, `{note}` and `{session}` are
/// filled in, in that order.
pub const CHECKPOINT_TEMPLATE: &'static str = "# Frugal Checkpoint — {ts}\n\nnote: {note}\nsession: {session}\n\nobjective: <what we're trying to accomplish>\ncurrent_state: <where things stand>\ndecisions: <choices made and WHY>\nmodified_files: <paths + one-line what-changed>\nunresolved_errors: <exact error text>\nconstraints: <Tier 0 — contracts, security rules, requirements>\ntest_status: <passes / fails>\nnext_steps: <ordered, specific>\n";

/// The checkpoint text for a timestamp, note and session.
pub open spec fn checkpoint_text(ts: Seq<char>, note: Seq<char>, session: Seq<char>) -> Seq<char> {
    replace_all(
        replace_all(replace_all(CHECKPOINT_TEMPLATE@, "{ts}"@, ts), "{note}"@, note),
        "{session}"@,
        session,
    )
}

/// The body of a checkpoint file: the template with the timestamp, then the
/// note, then the session filled in.
pub fn checkpoint_body(ts: &str, note: &str, session: &str) -> (r: String)
    ensures
        r@ == checkpoint_text(ts@, note@, session@),
{
    proof {
        reveal_strlit("{ts}");
        reveal_strlit("{note}");
        reveal_strlit("{session}");
    }
    let a = replace_text(CHECKPOINT_TEMPLATE, "{ts}", ts);
    let b = replace_text(a.as_str(), "{note}", note);
    replace_text(b.as_str(), "{session}", session)
}

/// `c` with `:`, `T` and `+` turned into `-`.
pub open spec fn stamp_char(c: char) -> char {
    if c == ':' || c == 'T' || c == '+' {
        '-'
    } else {
        c
    }
}

/// File-name stamp for a checkpoint: the local time text with `:`, `T` and
/// `+` replaced by `-`, then `-` and the milliseconds as three digits (which
/// keeps checkpoints in the same second apart).
pub open spec fn stamp_text(now: Seq<char>, millis: u32) -> Seq<char> {
    now.map_values(|c: char| stamp_char(c)) + seq!['-'] + zero_pad(decimal(millis as int), 3)
}

/// Milliseconds below 1000 written as exactly three decimal digits.
pub proof fn lemma_millis_digits(m: u32)
    requires
        m < 1000,
    ensures
        zero_pad(decimal(m as int), 3) == seq![
            crate::text::digit_char(m as int / 100),
            crate::text::digit_char((m as int / 10) % 10),
            crate::text::digit_char(m as int % 10),
        ],
{
    reveal_with_fuel(crate::text::nat_digits, 3);
    let n = m as nat;
    if n < 10 {
        assert(zero_pad(decimal(m as int), 3) =~= seq!['0', '0'] + seq![crate::text::digit_char(n as int)]);
    } else if n < 100 {
        assert(decimal(m as int) =~= seq![crate::text::digit_char((n / 10) as int), crate::text::digit_char((n % 10) as int)]);
        assert(zero_pad(decimal(m as int), 3) =~= seq!['0'] + decimal(m as int));
    } else {
        assert(crate::text::nat_digits(n / 10) =~= seq![
            crate::text::digit_char((n / 100) as int),
            crate::text::digit_char(((n / 10) % 10) as int),
        ]);
        assert(decimal(m as int) =~= seq![
            crate::text::digit_char((n / 100) as int),
            crate::text::digit_char(((n / 10) % 10) as int),
            crate::text::digit_char((n % 10) as int),
        ]);
    }
}

/// A stamp holds no `:`, `T` or `+`, and ends in `-` and three digits.
pub proof fn lemma_stamp_shape(now: Seq<char>, millis: u32)
    requires
        millis < 1000,
    ensures
        stamp_text(now, millis).len() == now.len() + 4,
        forall|i: int|
            0 <= i < stamp_text(now, millis).len() ==> #[trigger] stamp_text(now, millis)[i] != ':'
                && stamp_text(now, millis)[i] != 'T' && stamp_text(now, millis)[i] != '+',
        stamp_text(now, millis)[now.len() as int] == '-',
        forall|i: int|
            now.len() < i < now.len() + 4 ==> '0' <= #[trigger] stamp_text(now, millis)[i] <= '9',
{
    lemma_millis_digits(millis);
}

/// Checkpoints stamped in the same second with different milliseconds get
/// different stamps.
pub proof fn lemma_stamp_millis_distinct(now: Seq<char>, m1: u32, m2: u32)
    requires
        m1 < 1000,
        m2 < 1000,
        m1 != m2,
    ensures
        stamp_text(now, m1) != stamp_text(now, m2),
{
    lemma_millis_digits(m1);
    lemma_millis_digits(m2);
    let s1 = stamp_text(now, m1);
    let s2 = stamp_text(now, m2);
    let k = now.len() as int;
    if s1 == s2 {
        assert(s1[k + 1] == s2[k + 1] && s1[k + 2] == s2[k + 2] && s1[k + 3] == s2[k + 3]);
        assert(m1 as int == 100 * (m1 as int / 100) + 10 * ((m1 as int / 10) % 10) + m1 as int % 10);
        assert(m2 as int == 100 * (m2 as int / 100) + 10 * ((m2 as int / 10) % 10) + m2 as int % 10);
    }
}

/// The checkpoint stamp for the local time text `now` and the milliseconds
/// within the second.
pub fn chrono_stamp(now: &str, millis: u32) -> (r: String)
    ensures
        r@ == stamp_text(now@, millis),
{
    let cs = chars_of(now);
    let mut r = String::new();
    for i in 0..cs.len()
        invariant
            cs@ == now@,
            r@ == now@.take(i as int).map_values(|c: char| stamp_char(c)),
    {
        let c = cs[i];
        let d = if c == ':' || c == 'T' || c == '+' {
            '-'
        } else {
            c
        };
        push_char(&mut r, d);
        assert(now@.take(i + 1) =~= now@.take(i as int).push(c));
        assert(now@.take(i + 1).map_values(|c: char| stamp_char(c)) =~= now@.take(i as int).map_values(
            |c: char| stamp_char(c),
        ).push(d));
    }
    assert(now@.take(cs.len() as int) =~= now@);
    push_char(&mut r, '-');
    let ms = zero_padded(millis, 3);
    append(&mut r, ms.as_str());
    r
}

/// The checkpoint file name for a stamp: the stamp followed by `.md`.
pub fn checkpoint_file_name(stamp: &str) -> (r: String)
    ensures
        r@ == stamp@ + ".md"@,
{
    let mut r = owned(stamp);
    append(&mut r, ".md");
    r
}

} // verus!

use vstd::prelude::*;

use crate::error::{Error, ErrorKind};
use crate::storage::SafeFile;
use crate::utils::{digits_value, is_digit, parse_u64, parse_u64_spec, unsigned_body};

verus! {

/// The times recorded of an entry: expiry, trashing and creation.
pub type TimesModel = (i64, i64, i64);

/// What the metadata document records of an entry: original path, stored
/// path, times and checksum.
pub type EntryModel = (Seq<char>, Seq<char>, TimesModel, Seq<char>);

pub open spec fn entry_model(f: SafeFile) -> EntryModel {
    (f.original_path@, f.moved_path@, (f.deleted_at, f.trashed_at, f.created_at), f.checksum@)
}

pub open spec fn entry_models(files: Seq<SafeFile>) -> Seq<EntryModel> {
    files.map_values(|f: SafeFile| entry_model(f))
}

/// The decimal digit for `d < 10`.
pub open spec fn digit_char(d: nat) -> char {
    if d == 0 {
        '0'
    } else if d == 1 {
        '1'
    } else if d == 2 {
        '2'
    } else if d == 3 {
        '3'
    } else if d == 4 {
        '4'
    } else if d == 5 {
        '5'
    } else if d == 6 {
        '6'
    } else if d == 7 {
        '7'
    } else if d == 8 {
        '8'
    } else {
        '9'
    }
}

/// The decimal digits of `n`, without leading zeros.
pub open spec fn dec(n: nat) -> Seq<char>
    decreases n,
{
    if n < 10 {
        seq![digit_char(n)]
    } else {
        dec(n / 10).push(digit_char(n % 10))
    }
}

/// The decimal form of `x`, with a leading `-` when negative.
pub open spec fn enc_int(x: int) -> Seq<char> {
    if x < 0 {
        seq!['-'] + dec((-x) as nat)
    } else {
        dec(x as nat)
    }
}

/// A text field: its length in characters, `:`, then the text itself.
pub open spec fn enc_field(s: Seq<char>) -> Seq<char> {
    dec(s.len()) + seq![':'] + s
}

/// The three times of an entry, each followed by `:`.
pub open spec fn enc_times(t: TimesModel) -> Seq<char> {
    (enc_int(t.0 as int) + seq![':']) + ((enc_int(t.1 as int) + seq![':']) + (enc_int(t.2 as int)
        + seq![':']))
}

/// One line of the metadata document.
pub open spec fn enc_entry(m: EntryModel) -> Seq<char> {
    enc_field(m.0) + enc_field(m.1) + enc_times(m.2) + enc_field(m.3) + seq!['\n']
}

/// The metadata document: one line per entry, in order.
pub open spec fn enc_doc(v: Seq<EntryModel>) -> Seq<char>
    decreases v.len(),
{
    if v.len() == 0 {
        Seq::empty()
    } else {
        enc_entry(v[0]) + enc_doc(v.drop_first())
    }
}

proof fn lemma_digit_char(k: nat)
    requires
        k < 10,
    ensures
        digit_char(k) as int - '0' as int == k,
        is_digit(digit_char(k)),
{
}

proof fn lemma_dec(n: nat)
    ensures
        dec(n).len() >= 1,
        forall|i: int| 0 <= i < dec(n).len() ==> is_digit(#[trigger] dec(n)[i]),
        digits_value(dec(n)) == n,
        unsigned_body(dec(n)) == dec(n),
    decreases n,
{
    lemma_digit_char(n % 10);
    if n < 10 {
        assert(dec(n).drop_last() =~= Seq::<char>::empty());
    }
    if n >= 10 {
        lemma_dec(n / 10);
        let d = dec(n);
        assert(d.drop_last() =~= dec(n / 10));
        assert(n == (n / 10) * 10 + n % 10);
        assert forall|i: int| 0 <= i < d.len() implies is_digit(#[trigger] d[i]) by {
            if i < d.len() - 1 {
                assert(d[i] == dec(n / 10)[i]);
            }
        };
        assert(dec(n / 10)[0] == d[0]);
        assert(d.last() == digit_char(n % 10));
        assert(digits_value(d) == digits_value(d.drop_last()) * 10 + (d.last() as int - '0' as int));
        assert(digits_value(d) == (n / 10) as int * 10 + (n % 10) as int);
    } else {
        let d = dec(n);
        assert(d.last() == digit_char(n));
        assert(digits_value(d) == digits_value(d.drop_last()) * 10 + (d.last() as int - '0' as int));
    }
}

proof fn lemma_enc_doc_push(v: Seq<EntryModel>, m: EntryModel)
    ensures
        enc_doc(v.push(m)) == enc_doc(v) + enc_entry(m),
    decreases v.len(),
{
    if v.len() == 0 {
        assert(v.push(m).drop_first() =~= Seq::<EntryModel>::empty());
        assert(enc_doc(v.push(m)) =~= enc_entry(m) + enc_doc(Seq::<EntryModel>::empty()));
    } else {
        assert(v.push(m).drop_first() =~= v.drop_first().push(m));
        lemma_enc_doc_push(v.drop_first(), m);
        assert(enc_doc(v.push(m)) =~= enc_entry(v[0]) + (enc_doc(v.drop_first()) + enc_entry(m)));
    }
}

/// The literal holding just the digit `d`.
fn digit_str(d: u64) -> (r: &'static str)
    requires
        d < 10,
    ensures
        r@ == seq![digit_char(d as nat)],
{
    proof {
        reveal_strlit("0");
        reveal_strlit("1");
        reveal_strlit("2");
        reveal_strlit("3");
        reveal_strlit("4");
        reveal_strlit("5");
        reveal_strlit("6");
        reveal_strlit("7");
        reveal_strlit("8");
        reveal_strlit("9");
    }
    let r = if d == 0 {
        "0"
    } else if d == 1 {
        "1"
    } else if d == 2 {
        "2"
    } else if d == 3 {
        "3"
    } else if d == 4 {
        "4"
    } else if d == 5 {
        "5"
    } else if d == 6 {
        "6"
    } else if d == 7 {
        "7"
    } else if d == 8 {
        "8"
    } else {
        "9"
    };
    assert(r@ =~= seq![digit_char(d as nat)]);
    r
}

/// Appends the decimal digits of `n` to `out`.
fn push_decimal(n: u64, out: &mut String)
    ensures
        final(out)@ == old(out)@ + dec(n as nat),
    decreases n,
{
    if n >= 10 {
        push_decimal(n / 10, out);
    }
    out.append(digit_str(n % 10));
    assert(final(out)@ =~= old(out)@ + dec(n as nat));
}

/// Appends the decimal form of `x` to `out`.
fn push_int(x: i64, out: &mut String)
    ensures
        final(out)@ == old(out)@ + enc_int(x as int),
{
    if x < 0 {
        proof {
            reveal_strlit("-");
        }
        out.append("-");
        let m: u64 = (0i128 - x as i128) as u64;
        push_decimal(m, out);
        assert(final(out)@ =~= old(out)@ + enc_int(x as int));
    } else {
        push_decimal(x as u64, out);
    }
}

/// Appends the encoding of three times to `out`.
fn push_times(a: i64, b: i64, c: i64, out: &mut String)
    ensures
        final(out)@ == old(out)@ + enc_times((a, b, c)),
{
    proof {
        reveal_strlit(":");
    }
    push_int(a, out);
    out.append(":");
    push_int(b, out);
    out.append(":");
    push_int(c, out);
    out.append(":");
    assert(final(out)@ =~= old(out)@ + enc_times((a, b, c)));
}

/// Appends the field encoding of `s` to `out`.
fn push_field(s: &str, out: &mut String)
    ensures
        final(out)@ == old(out)@ + enc_field(s@),
{
    proof {
        reveal_strlit(":");
    }
    push_decimal(s.unicode_len() as u64, out);
    out.append(":");
    out.append(s);
    assert(final(out)@ =~= old(out)@ + enc_field(s@));
}

/// The metadata document recording `files`.
pub fn encode_metadata(files: &Vec<SafeFile>) -> (r: String)
    ensures
        r@ == enc_doc(entry_models(files@)),
{
    let mut out = String::new();
    let n = files.len();
    let mut i: usize = 0;
    assert(entry_models(files@.subrange(0, 0)) =~= Seq::<EntryModel>::empty());
    while i < n
        invariant
            n == files@.len(),
            0 <= i <= n,
            out@ == enc_doc(entry_models(files@.subrange(0, i as int))),
        decreases n - i,
    {
        let f = &files[i];
        let ghost before = out@;
        proof {
            reveal_strlit(":");
            reveal_strlit("\n");
        }
        push_field(f.original_path.as_str(), &mut out);
        push_field(f.moved_path.as_str(), &mut out);
        push_times(f.deleted_at, f.trashed_at, f.created_at, &mut out);
        push_field(f.checksum.as_str(), &mut out);
        out.append("\n");
        proof {
            let prev = entry_models(files@.subrange(0, i as int));
            assert(entry_models(files@.subrange(0, i + 1)) =~= prev.push(entry_model(files@[i as int])));
            lemma_enc_doc_push(prev, entry_model(files@[i as int]));
            assert(out@ =~= before + enc_entry(entry_model(files@[i as int])));
        }
        i = i + 1;
    }
    assert(files@.subrange(0, n as int) =~= files@);
    out
}

/// Whether `s` begins with `p`.
pub open spec fn starts_with(s: Seq<char>, p: Seq<char>) -> bool {
    p.len() <= s.len() && s.subrange(0, p.len() as int) == p
}

/// The first `:` of `s` stands at `k`.
pub open spec fn first_colon_at(s: Seq<char>, k: int) -> bool {
    0 <= k < s.len() && s[k] == ':' && forall|j: int| 0 <= j < k ==> #[trigger] s[j] != ':'
}

proof fn lemma_starts_with_skip(s: Seq<char>, q: Seq<char>, p: Seq<char>)
    requires
        starts_with(s, q + p),
    ensures
        starts_with(s, q),
        starts_with(s.subrange(q.len() as int, s.len() as int), p),
{
    let n = (q + p).len() as int;
    let k = q.len() as int;
    assert(s.subrange(0, n) == q + p);
    assert(s.subrange(0, k) =~= s.subrange(0, n).subrange(0, k));
    assert((q + p).subrange(0, k) =~= q);
    assert(s.subrange(k, s.len() as int).subrange(0, p.len() as int) =~= s.subrange(0, n).subrange(
        k,
        n,
    ));
    assert((q + p).subrange(k, n) =~= p);
}

proof fn lemma_first_colon_unique(s: Seq<char>, a: int, b: int)
    requires
        first_colon_at(s, a),
        first_colon_at(s, b),
    ensures
        a == b,
{
    if a < b {
        assert(s[a] != ':');
    } else if b < a {
        assert(s[b] != ':');
    }
}

proof fn lemma_field_shape(s: Seq<char>, t: Seq<char>)
    requires
        starts_with(s, enc_field(t)),
    ensures
        first_colon_at(s, dec(t.len()).len() as int),
        s.subrange(0, dec(t.len()).len() as int) == dec(t.len()),
        s.subrange(dec(t.len()).len() + 1 as int, dec(t.len()).len() + 1 + t.len() as int) == t,
{
    lemma_dec(t.len());
    let d = dec(t.len());
    let e = enc_field(t);
    assert(s.subrange(0, d.len() as int) =~= e.subrange(0, d.len() as int));
    assert(e.subrange(0, d.len() as int) =~= d);
    assert(s[d.len() as int] == e[d.len() as int]);
    assert forall|j: int| 0 <= j < d.len() implies #[trigger] s[j] != ':' by {
        assert(s[j] == e[j]);
        assert(e[j] == d[j]);
        assert(is_digit(d[j]));
    };
    assert(s.subrange(d.len() + 1 as int, d.len() + 1 + t.len() as int) =~= e.subrange(
        d.len() + 1 as int,
        e.len() as int,
    ));
}

proof fn lemma_dec_injective(a: nat, b: nat)
    requires
        dec(a) == dec(b),
    ensures
        a == b,
{
    lemma_dec(a);
    lemma_dec(b);
}

proof fn lemma_int_shape(s: Seq<char>, y: int)
    requires
        starts_with(s, enc_int(y) + seq![':']),
    ensures
        first_colon_at(s, enc_int(y).len() as int),
        s.subrange(0, enc_int(y).len() as int) == enc_int(y),
{
    let e = enc_int(y);
    let m: nat = if y < 0 {
        (-y) as nat
    } else {
        y as nat
    };
    lemma_dec(m);
    lemma_starts_with_skip(s, e, seq![':']);
    assert(s[e.len() as int] == (e + seq![':'])[e.len() as int]);
    assert forall|j: int| 0 <= j < e.len() implies #[trigger] s[j] != ':' by {
        assert(s[j] == s.subrange(0, e.len() as int)[j]);
        if y < 0 {
            if j > 0 {
                assert(e[j] == dec(m)[j - 1]);
                assert(is_digit(dec(m)[j - 1]));
            }
        } else {
            assert(is_digit(dec(m)[j]));
        }
    };
}

proof fn lemma_int_injective(a: int, b: int)
    requires
        enc_int(a) == enc_int(b),
    ensures
        a == b,
{
    let ma: nat = if a < 0 {
        (-a) as nat
    } else {
        a as nat
    };
    let mb: nat = if b < 0 {
        (-b) as nat
    } else {
        b as nat
    };
    lemma_dec(ma);
    lemma_dec(mb);
    if a < 0 && b < 0 {
        assert(dec(ma) =~= enc_int(a).drop_first());
        assert(dec(mb) =~= enc_int(b).drop_first());
        lemma_dec_injective(ma, mb);
    } else if a < 0 {
        assert(enc_int(a)[0] == '-');
        assert(is_digit(dec(mb)[0]));
    } else if b < 0 {
        assert(enc_int(b)[0] == '-');
        assert(is_digit(dec(ma)[0]));
    } else {
        lemma_dec_injective(ma, mb);
    }
}

proof fn lemma_field_unique(s: Seq<char>, t1: Seq<char>, t2: Seq<char>)
    requires
        starts_with(s, enc_field(t1)),
        starts_with(s, enc_field(t2)),
    ensures
        t1 == t2,
{
    lemma_field_shape(s, t1);
    lemma_field_shape(s, t2);
    lemma_first_colon_unique(s, dec(t1.len()).len() as int, dec(t2.len()).len() as int);
    lemma_dec_injective(t1.len(), t2.len());
}

proof fn lemma_int_unique(s: Seq<char>, a: int, b: int)
    requires
        starts_with(s, enc_int(a) + seq![':']),
        starts_with(s, enc_int(b) + seq![':']),
    ensures
        a == b,
{
    lemma_int_shape(s, a);
    lemma_int_shape(s, b);
    lemma_first_colon_unique(s, enc_int(a).len() as int, enc_int(b).len() as int);
    lemma_int_injective(a, b);
}

proof fn lemma_times_unique(s: Seq<char>, t1: TimesModel, t2: TimesModel)
    requires
        starts_with(s, enc_times(t1)),
        starts_with(s, enc_times(t2)),
    ensures
        t1 == t2,
{
    let a1 = enc_int(t1.0 as int) + seq![':'];
    let a2 = enc_int(t2.0 as int) + seq![':'];
    let r1 = (enc_int(t1.1 as int) + seq![':']) + (enc_int(t1.2 as int) + seq![':']);
    let r2 = (enc_int(t2.1 as int) + seq![':']) + (enc_int(t2.2 as int) + seq![':']);
    lemma_starts_with_skip(s, a1, r1);
    lemma_starts_with_skip(s, a2, r2);
    lemma_int_unique(s, t1.0 as int, t2.0 as int);
    let s1 = s.subrange(a1.len() as int, s.len() as int);
    lemma_starts_with_skip(s1, enc_int(t1.1 as int) + seq![':'], enc_int(t1.2 as int) + seq![':']);
    lemma_starts_with_skip(s1, enc_int(t2.1 as int) + seq![':'], enc_int(t2.2 as int) + seq![':']);
    lemma_int_unique(s1, t1.1 as int, t2.1 as int);
    let s2 = s1.subrange((enc_int(t1.1 as int) + seq![':']).len() as int, s1.len() as int);
    lemma_int_unique(s2, t1.2 as int, t2.2 as int);
}

/// The parts of an entry's line, in order.
proof fn lemma_entry_parts(m: EntryModel)
    ensures
        enc_entry(m) == enc_field(m.0) + (enc_field(m.1) + (enc_times(m.2) + (
        enc_field(m.3) + seq!['\n']))),
{
    assert(enc_entry(m) =~= enc_field(m.0) + (enc_field(m.1) + (enc_times(m.2)
        + (enc_field(m.3) + seq!['\n']))));
}

proof fn lemma_entry_unique(s: Seq<char>, m1: EntryModel, m2: EntryModel)
    requires
        starts_with(s, enc_entry(m1)),
        starts_with(s, enc_entry(m2)),
    ensures
        m1 == m2,
{
    lemma_entry_parts(m1);
    lemma_entry_parts(m2);
    let r1a = enc_field(m1.1) + (enc_times(m1.2) + (enc_field(m1.3) + seq!['\n']));
    let r2a = enc_field(m2.1) + (enc_times(m2.2) + (enc_field(m2.3) + seq!['\n']));
    lemma_starts_with_skip(s, enc_field(m1.0), r1a);
    lemma_starts_with_skip(s, enc_field(m2.0), r2a);
    lemma_field_unique(s, m1.0, m2.0);
    let s1 = s.subrange(enc_field(m1.0).len() as int, s.len() as int);
    let r1b = enc_times(m1.2) + (enc_field(m1.3) + seq!['\n']);
    let r2b = enc_times(m2.2) + (enc_field(m2.3) + seq!['\n']);
    lemma_starts_with_skip(s1, enc_field(m1.1), r1b);
    lemma_starts_with_skip(s1, enc_field(m2.1), r2b);
    lemma_field_unique(s1, m1.1, m2.1);
    let s2 = s1.subrange(enc_field(m1.1).len() as int, s1.len() as int);
    lemma_starts_with_skip(s2, enc_times(m1.2), enc_field(m1.3) + seq!['\n']);
    lemma_starts_with_skip(s2, enc_times(m2.2), enc_field(m2.3) + seq!['\n']);
    lemma_times_unique(s2, m1.2, m2.2);
    let s3 = s2.subrange(enc_times(m1.2).len() as int, s2.len() as int);
    lemma_starts_with_skip(s3, enc_field(m1.3), seq!['\n']);
    lemma_starts_with_skip(s3, enc_field(m2.3), seq!['\n']);
    lemma_field_unique(s3, m1.3, m2.3);
}

/// Two lists of entries with the same document are the same list: reading
/// back a written document gives exactly the entries that were written.
pub proof fn lemma_metadata_round_trip(v: Seq<EntryModel>, w: Seq<EntryModel>)
    requires
        enc_doc(v) == enc_doc(w),
    ensures
        v == w,
    decreases v.len(),
{
    if v.len() == 0 && w.len() > 0 {
        assert(enc_doc(w).len() > 0) by {
            lemma_entry_parts(w[0]);
        };
    } else if v.len() > 0 && w.len() == 0 {
        assert(enc_doc(v).len() > 0) by {
            lemma_entry_parts(v[0]);
        };
    } else if v.len() > 0 {
        let s = enc_doc(v);
        assert(starts_with(s, enc_entry(v[0]))) by {
            assert(s.subrange(0, enc_entry(v[0]).len() as int) =~= enc_entry(v[0]));
        };
        assert(starts_with(s, enc_entry(w[0]))) by {
            assert(enc_doc(w).subrange(0, enc_entry(w[0]).len() as int) =~= enc_entry(w[0]));
        };
        lemma_entry_unique(s, v[0], w[0]);
        assert(enc_doc(v.drop_first()) =~= s.subrange(enc_entry(v[0]).len() as int, s.len() as int));
        assert(enc_doc(w.drop_first()) =~= s.subrange(enc_entry(w[0]).len() as int, s.len() as int));
        lemma_metadata_round_trip(v.drop_first(), w.drop_first());
        assert(v =~= seq![v[0]] + v.drop_first());
        assert(w =~= seq![w[0]] + w.drop_first());
    }
}

/// The position of the first `:` in `s`, if any.
fn first_colon(s: &str) -> (r: Option<usize>)
    ensures
        r matches Some(k) ==> first_colon_at(s@, k as int),
        r is None ==> forall|j: int| 0 <= j < s@.len() ==> #[trigger] s@[j] != ':',
{
    let n = s.unicode_len();
    let mut i: usize = 0;
    while i < n
        invariant
            n == s@.len(),
            0 <= i <= n,
            forall|j: int| 0 <= j < i ==> #[trigger] s@[j] != ':',
        decreases n - i,
    {
        if s.get_char(i) == ':' {
            return Some(i);
        }
        i = i + 1;
    }
    None
}

/// Reads one text field from the front of `s`: the field and how many
/// characters it took.
fn read_field(s: &str) -> (r: Option<(String, usize)>)
    ensures
        r matches Some((f, c)) ==> c <= s@.len() && s@.subrange(0, c as int) == enc_field(f@),
        forall|t: Seq<char>|
            starts_with(s@, #[trigger] enc_field(t)) ==> (r matches Some((f, c)) && f@ == t && c
                == enc_field(t).len()),
{
    let len = s.unicode_len();
    let k = match first_colon(s) {
        None => {
            proof {
                assert forall|t: Seq<char>| starts_with(s@, #[trigger] enc_field(t)) implies false by {
                    lemma_field_shape(s@, t);
                };
            }
            return None;
        },
        Some(k) => k,
    };
    let digits = s.substring_char(0, k);
    let n = match parse_u64(digits) {
        Err(_) => {
            proof {
                assert forall|t: Seq<char>| starts_with(s@, #[trigger] enc_field(t)) implies false by {
                    lemma_field_shape(s@, t);
                    lemma_first_colon_unique(s@, k as int, dec(t.len()).len() as int);
                    lemma_dec(t.len());
                };
            }
            return None;
        },
        Ok(n) => n,
    };
    let mut back = String::new();
    push_decimal(n, &mut back);
    assert(back@ =~= dec(n as nat));
    if back != String::from_str(digits) {
        proof {
            assert forall|t: Seq<char>| starts_with(s@, #[trigger] enc_field(t)) implies false by {
                lemma_field_shape(s@, t);
                lemma_first_colon_unique(s@, k as int, dec(t.len()).len() as int);
                lemma_dec(t.len());
            };
        }
        return None;
    }
    if n > (len - k - 1) as u64 {
        proof {
            assert forall|t: Seq<char>| starts_with(s@, #[trigger] enc_field(t)) implies false by {
                lemma_field_shape(s@, t);
                lemma_first_colon_unique(s@, k as int, dec(t.len()).len() as int);
                lemma_dec(t.len());
                lemma_dec(n as nat);
                lemma_dec_injective(n as nat, t.len());
            };
        }
        return None;
    }
    let end = k + 1 + n as usize;
    let field = String::from_str(s.substring_char(k + 1, end));
    proof {
        assert(s@.subrange(0, end as int) =~= enc_field(field@));
        assert forall|t: Seq<char>| starts_with(s@, #[trigger] enc_field(t)) implies field@ == t
            && end == enc_field(t).len() by {
            lemma_field_shape(s@, t);
            lemma_first_colon_unique(s@, k as int, dec(t.len()).len() as int);
            lemma_dec(t.len());
            lemma_dec(n as nat);
            lemma_dec_injective(n as nat, t.len());
        };
    }
    Some((field, end))
}

/// Reads one integer and its `:` from the front of `s`: the integer and how
/// many characters it took.
fn read_int(s: &str) -> (r: Option<(i64, usize)>)
    ensures
        r matches Some((x, c)) ==> c <= s@.len() && s@.subrange(0, c as int) == enc_int(x as int)
            + seq![':'],
        forall|y: i64|
            starts_with(s@, #[trigger] enc_int(y as int) + seq![':']) ==> (r matches Some((x, c))
                && x == y && c == enc_int(y as int).len() + 1),
{
    let k = match first_colon(s) {
        None => {
            proof {
                assert forall|y: i64| starts_with(s@, #[trigger] enc_int(y as int) + seq![':']) implies false by {
                    lemma_int_shape(s@, y as int);
                };
            }
            return None;
        },
        Some(k) => k,
    };
    let len = s.unicode_len();
    assert(k < len);
    let token = s.substring_char(0, k);
    let x: i64;
    if k > 0 && token.get_char(0) == '-' {
        let magnitude = match parse_u64(token.substring_char(1, k)) {
            Err(_) => {
                proof {
                    assert forall|y: i64| starts_with(s@, #[trigger] enc_int(y as int) + seq![':']) implies false by {
                        lemma_int_shape(s@, y as int);
                        lemma_first_colon_unique(s@, k as int, enc_int(y as int).len() as int);
                        lemma_int_cases(y as int, token@);
                    };
                }
                return None;
            },
            Ok(m) => m,
        };
        if magnitude > 9223372036854775808 {
            proof {
                assert forall|y: i64| starts_with(s@, #[trigger] enc_int(y as int) + seq![':']) implies false by {
                    lemma_int_shape(s@, y as int);
                    lemma_first_colon_unique(s@, k as int, enc_int(y as int).len() as int);
                    lemma_int_cases(y as int, token@);
                };
            }
            return None;
        }
        x = (0i128 - magnitude as i128) as i64;
    } else {
        let magnitude = match parse_u64(token) {
            Err(_) => {
                proof {
                    assert forall|y: i64| starts_with(s@, #[trigger] enc_int(y as int) + seq![':']) implies false by {
                        lemma_int_shape(s@, y as int);
                        lemma_first_colon_unique(s@, k as int, enc_int(y as int).len() as int);
                        lemma_int_cases(y as int, token@);
                    };
                }
                return None;
            },
            Ok(m) => m,
        };
        if magnitude > 9223372036854775807 {
            proof {
                assert forall|y: i64| starts_with(s@, #[trigger] enc_int(y as int) + seq![':']) implies false by {
                    lemma_int_shape(s@, y as int);
                    lemma_first_colon_unique(s@, k as int, enc_int(y as int).len() as int);
                    lemma_int_cases(y as int, token@);
                };
            }
            return None;
        }
        x = magnitude as i64;
    }
    let mut back = String::new();
    push_int(x, &mut back);
    if back != String::from_str(token) {
        proof {
            assert forall|y: i64| starts_with(s@, #[trigger] enc_int(y as int) + seq![':']) implies false by {
                lemma_int_shape(s@, y as int);
                lemma_first_colon_unique(s@, k as int, enc_int(y as int).len() as int);
                lemma_int_cases(y as int, token@);
            };
        }
        return None;
    }
    proof {
        assert(s@.subrange(0, k + 1) =~= enc_int(x as int) + seq![':']);
        assert forall|y: i64| starts_with(s@, #[trigger] enc_int(y as int) + seq![':']) implies x
            == y && k + 1 == enc_int(y as int).len() + 1 by {
            lemma_int_shape(s@, y as int);
            lemma_first_colon_unique(s@, k as int, enc_int(y as int).len() as int);
            lemma_int_injective(x as int, y as int);
        };
    }
    Some((x, k + 1))
}

/// Reads the three times of an entry from the front of `s`: the times and
/// how many characters they took.
fn read_times(s: &str) -> (r: Option<(TimesModel, usize)>)
    ensures
        r matches Some((t, c)) ==> c <= s@.len() && s@.subrange(0, c as int) == enc_times(t),
        forall|t: TimesModel|
            starts_with(s@, #[trigger] enc_times(t)) ==> (r matches Some((u, c)) && u == t && c
                == enc_times(t).len()),
{
    let len = s.unicode_len();
    let (a, c1) = match read_int(s) {
        None => {
            proof {
                assert forall|t: TimesModel| starts_with(s@, #[trigger] enc_times(t)) implies false by {
                    lemma_times_chain(s@, t);
                };
            }
            return None;
        },
        Some(p) => p,
    };
    let s2 = s.substring_char(c1, len);
    assert(s2@ =~= s@.subrange(c1 as int, len as int));
    let len2 = s2.unicode_len();
    let (b, c2) = match read_int(s2) {
        None => {
            proof {
                assert forall|t: TimesModel| starts_with(s@, #[trigger] enc_times(t)) implies false by {
                    lemma_times_chain(s@, t);
                    assert(a == t.0 && c1 == enc_int(t.0 as int).len() + 1);
                };
            }
            return None;
        },
        Some(p) => p,
    };
    let s3 = s2.substring_char(c2, len2);
    assert(s3@ =~= s@.subrange(c1 + c2, len as int));
    let (c, c3) = match read_int(s3) {
        None => {
            proof {
                assert forall|t: TimesModel| starts_with(s@, #[trigger] enc_times(t)) implies false by {
                    lemma_times_chain(s@, t);
                    assert(a == t.0 && c1 == enc_int(t.0 as int).len() + 1);
                    assert(b == t.1 && c2 == enc_int(t.1 as int).len() + 1);
                };
            }
            return None;
        },
        Some(p) => p,
    };
    let total = c1 + c2 + c3;
    proof {
        assert(s@.subrange(0, total as int) =~= enc_times((a, b, c)));
        assert forall|t: TimesModel| starts_with(s@, #[trigger] enc_times(t)) implies (a, b, c)
            == t && total == enc_times(t).len() by {
            lemma_times_chain(s@, t);
            assert(a == t.0 && c1 == enc_int(t.0 as int).len() + 1);
            assert(b == t.1 && c2 == enc_int(t.1 as int).len() + 1);
            assert(c == t.2 && c3 == enc_int(t.2 as int).len() + 1);
        };
    }
    Some(((a, b, c), total))
}

/// The three times `enc_times(t)` at the front of `s`, each at its offset.
proof fn lemma_times_chain(s: Seq<char>, t: TimesModel)
    requires
        starts_with(s, enc_times(t)),
    ensures
        ({
            let l0 = enc_int(t.0 as int).len() + 1 as int;
            let l1 = enc_int(t.1 as int).len() + 1 as int;
            let l2 = enc_int(t.2 as int).len() + 1 as int;
            &&& starts_with(s, enc_int(t.0 as int) + seq![':'])
            &&& starts_with(s.subrange(l0, s.len() as int), enc_int(t.1 as int) + seq![':'])
            &&& starts_with(s.subrange(l0 + l1, s.len() as int), enc_int(t.2 as int) + seq![':'])
            &&& enc_times(t).len() == l0 + l1 + l2
        }),
{
    let a = enc_int(t.0 as int) + seq![':'];
    let b = enc_int(t.1 as int) + seq![':'];
    let c = enc_int(t.2 as int) + seq![':'];
    lemma_starts_with_skip(s, a, b + c);
    let s1 = s.subrange(a.len() as int, s.len() as int);
    lemma_starts_with_skip(s1, b, c);
    assert(s1.subrange(b.len() as int, s1.len() as int) =~= s.subrange(
        a.len() + b.len() as int,
        s.len() as int,
    ));
}

/// What a reader of `token == enc_int(y)` finds: a leading `-` exactly when
/// `y` is negative, followed by the digits of its magnitude.
proof fn lemma_int_cases(y: int, token: Seq<char>)
    requires
        token == enc_int(y),
    ensures
        y < 0 ==> token.len() > 0 && token[0] == '-' && parse_u64_spec(token.subrange(
            1,
            token.len() as int,
        )) == Some(-y) || -y > u64::MAX,
        y >= 0 ==> token.len() > 0 && token[0] != '-' && (parse_u64_spec(token) == Some(y) || y
            > u64::MAX),
{
    if y < 0 {
        lemma_dec((-y) as nat);
        assert(token.subrange(1, token.len() as int) =~= dec((-y) as nat));
    } else {
        lemma_dec(y as nat);
        assert(is_digit(token[0]));
    }
}

/// The parts a line `enc_entry(m)` at the front of `s` is made of, each at its offset.
proof fn lemma_entry_chain(s: Seq<char>, m: EntryModel)
    requires
        starts_with(s, enc_entry(m)),
    ensures
        ({
            let l0 = enc_field(m.0).len() as int;
            let l1 = enc_field(m.1).len() as int;
            let l2 = enc_times(m.2).len() as int;
            let l3 = enc_field(m.3).len() as int;
            &&& starts_with(s, enc_field(m.0))
            &&& starts_with(s.subrange(l0, s.len() as int), enc_field(m.1))
            &&& starts_with(s.subrange(l0 + l1, s.len() as int), enc_times(m.2))
            &&& starts_with(s.subrange(l0 + l1 + l2, s.len() as int), enc_field(m.3))
            &&& l0 + l1 + l2 + l3 < s.len()
            &&& s[l0 + l1 + l2 + l3] == '\n'
            &&& enc_entry(m).len() == l0 + l1 + l2 + l3 + 1
        }),
{
    lemma_entry_parts(m);
    let l0 = enc_field(m.0).len() as int;
    let l1 = enc_field(m.1).len() as int;
    let l2 = enc_times(m.2).len() as int;
    let r3 = enc_field(m.3) + seq!['\n'];
    let r2 = enc_times(m.2) + r3;
    let r1 = enc_field(m.1) + r2;
    lemma_starts_with_skip(s, enc_field(m.0), r1);
    let s1 = s.subrange(l0, s.len() as int);
    lemma_starts_with_skip(s1, enc_field(m.1), r2);
    let s2 = s1.subrange(l1, s1.len() as int);
    assert(s2 =~= s.subrange(l0 + l1, s.len() as int));
    lemma_starts_with_skip(s2, enc_times(m.2), r3);
    let s3 = s2.subrange(l2, s2.len() as int);
    assert(s3 =~= s.subrange(l0 + l1 + l2, s.len() as int));
    lemma_starts_with_skip(s3, enc_field(m.3), seq!['\n']);
    let s4 = s3.subrange(enc_field(m.3).len() as int, s3.len() as int);
    assert(s4[0] == seq!['\n'][0]);
}

/// Reads one entry's line from the front of `s`: the entry and how many
/// characters it took.
#[verifier::rlimit(40)]
fn read_entry(s: &str) -> (r: Option<(SafeFile, usize)>)
    ensures
        r matches Some((f, c)) ==> 0 < c <= s@.len() && s@.subrange(0, c as int) == enc_entry(
            entry_model(f),
        ),
        forall|m: EntryModel|
            starts_with(s@, #[trigger] enc_entry(m)) ==> (r matches Some((f, c)) && entry_model(f)
                == m && c == enc_entry(m).len()),
{
    let len = s.unicode_len();
    let (a, c1) = match read_field(s) {
        None => {
            proof {
                assert forall|m: EntryModel| starts_with(s@, #[trigger] enc_entry(m)) implies false by {
                    lemma_entry_chain(s@, m);
                };
            }
            return None;
        },
        Some(p) => p,
    };
    let s2 = s.substring_char(c1, len);
    assert(s2@ =~= s@.subrange(c1 as int, len as int));
    let len2 = s2.unicode_len();
    let (b, c2) = match read_field(s2) {
        None => {
            proof {
                assert forall|m: EntryModel| starts_with(s@, #[trigger] enc_entry(m)) implies false by {
                    lemma_entry_chain(s@, m);
                    assert(a@ == m.0 && c1 == enc_field(m.0).len());
                };
            }
            return None;
        },
        Some(p) => p,
    };
    let s3 = s2.substring_char(c2, len2);
    assert(s3@ =~= s@.subrange(c1 + c2, len as int));
    let len3 = s3.unicode_len();
    let (x, c3) = match read_times(s3) {
        None => {
            proof {
                assert forall|m: EntryModel| starts_with(s@, #[trigger] enc_entry(m)) implies false by {
                    lemma_entry_chain(s@, m);
                    assert(a@ == m.0 && c1 == enc_field(m.0).len());
                    assert(b@ == m.1 && c2 == enc_field(m.1).len());
                };
            }
            return None;
        },
        Some(p) => p,
    };
    let s4 = s3.substring_char(c3, len3);
    assert(s4@ =~= s@.subrange(c1 + c2 + c3, len as int));
    let len4 = s4.unicode_len();
    let (k, c4) = match read_field(s4) {
        None => {
            proof {
                assert forall|m: EntryModel| starts_with(s@, #[trigger] enc_entry(m)) implies false by {
                    lemma_entry_chain(s@, m);
                    assert(a@ == m.0 && c1 == enc_field(m.0).len());
                    assert(b@ == m.1 && c2 == enc_field(m.1).len());
                    assert(x == m.2 && c3 == enc_times(m.2).len());
                };
            }
            return None;
        },
        Some(p) => p,
    };
    if c4 >= len4 || s4.get_char(c4) != '\n' {
        proof {
            assert forall|m: EntryModel| starts_with(s@, #[trigger] enc_entry(m)) implies false by {
                lemma_entry_chain(s@, m);
                assert(a@ == m.0 && c1 == enc_field(m.0).len());
                assert(b@ == m.1 && c2 == enc_field(m.1).len());
                assert(x == m.2 && c3 == enc_times(m.2).len());
                assert(k@ == m.3 && c4 == enc_field(m.3).len());
                assert(s4@[c4 as int] == s@[c1 + c2 + c3 + c4]);
            };
        }
        return None;
    }
    let total = c1 + c2 + c3 + c4 + 1;
    let f = SafeFile {
        original_path: a,
        moved_path: b,
        deleted_at: x.0,
        trashed_at: x.1,
        created_at: x.2,
        checksum: k,
    };
    proof {
        lemma_entry_parts(entry_model(f));
        assert(s@.subrange(0, c1 as int) == enc_field(a@));
        assert(s2@.subrange(0, c2 as int) == enc_field(b@));
        assert(s3@.subrange(0, c3 as int) == enc_times(x));
        assert(s4@.subrange(0, c4 as int) == enc_field(k@));
        assert(s@.subrange(0, total as int) =~= enc_entry(entry_model(f)));
        assert forall|m: EntryModel| starts_with(s@, #[trigger] enc_entry(m)) implies entry_model(f)
            == m && total == enc_entry(m).len() by {
            lemma_entry_chain(s@, m);
            assert(a@ == m.0 && c1 == enc_field(m.0).len());
            assert(b@ == m.1 && c2 == enc_field(m.1).len());
            assert(x == m.2 && c3 == enc_times(m.2).len());
            assert(k@ == m.3 && c4 == enc_field(m.3).len());
        };
    }
    Some((f, total))
}

/// Reads a metadata document back into its entries. Succeeds exactly on the
/// documents that `encode_metadata` writes, giving back the entries written.
pub fn decode_metadata(text: &str) -> (r: Result<Vec<SafeFile>, Error>)
    ensures
        r matches Ok(w) ==> enc_doc(entry_models(w@)) == text@,
        forall|v: Seq<EntryModel>|
            #[trigger] enc_doc(v) == text@ ==> (r matches Ok(w) && entry_models(w@) == v),
        r matches Err(e) ==> e.kind is ParseError,
{
    let mut rest: &str = text;
    let mut out: Vec<SafeFile> = Vec::new();
    let mut n = rest.unicode_len();
    assert(entry_models(out@) =~= Seq::<EntryModel>::empty());
    assert(text@ =~= enc_doc(entry_models(out@)) + rest@);
    proof {
        assert forall|v: Seq<EntryModel>| #[trigger] enc_doc(v) == text@ implies out@.len() <= v.len()
            && entry_models(out@) == v.subrange(0, out@.len() as int) && rest@ == enc_doc(
            v.subrange(out@.len() as int, v.len() as int),
        ) by {
            assert(v.subrange(0, 0) =~= Seq::<EntryModel>::empty());
            assert(v.subrange(0, v.len() as int) =~= v);
        };
    }
    while n > 0
        invariant
            n == rest@.len(),
            text@ == enc_doc(entry_models(out@)) + rest@,
            forall|v: Seq<EntryModel>|
                #[trigger] enc_doc(v) == text@ ==> out@.len() <= v.len() && entry_models(out@)
                    == v.subrange(0, out@.len() as int) && rest@ == enc_doc(
                    v.subrange(out@.len() as int, v.len() as int),
                ),
        decreases n,
    {
        let (f, c) = match read_entry(rest) {
            None => {
                proof {
                    assert forall|v: Seq<EntryModel>| #[trigger] enc_doc(v) == text@ implies false by {
                        let u = v.subrange(out@.len() as int, v.len() as int);
                        assert(u.len() > 0);
                        assert(rest@.subrange(0, enc_entry(u[0]).len() as int) =~= enc_entry(u[0]));
                    };
                }
                return Err(
                    Error::new(
                        ErrorKind::ParseError(String::from_str("Failed to parse metadata file")),
                    ),
                );
            },
            Some(p) => p,
        };
        let ghost old_rest = rest@;
        let ghost old_out = out@;
        rest = rest.substring_char(c, n);
        out.push(f);
        n = rest.unicode_len();
        proof {
            assert(old_rest =~= enc_entry(entry_model(f)) + rest@);
            assert(entry_models(out@) =~= entry_models(old_out).push(entry_model(f)));
            lemma_enc_doc_push(entry_models(old_out), entry_model(f));
            assert(text@ =~= enc_doc(entry_models(out@)) + rest@);
            assert forall|v: Seq<EntryModel>| #[trigger] enc_doc(v) == text@ implies out@.len()
                <= v.len() && entry_models(out@) == v.subrange(0, out@.len() as int) && rest@
                == enc_doc(v.subrange(out@.len() as int, v.len() as int)) by {
                let i = old_out.len() as int;
                let u = v.subrange(i, v.len() as int);
                assert(u.len() > 0);
                assert(old_rest.subrange(0, enc_entry(u[0]).len() as int) =~= enc_entry(u[0]));
                assert(u.drop_first() =~= v.subrange(i + 1, v.len() as int));
                assert(rest@ =~= old_rest.subrange(c as int, old_rest.len() as int));
                assert(v.subrange(0, i + 1) =~= v.subrange(0, i).push(u[0]));
            };
        }
    }
    proof {
        assert(rest@ =~= Seq::<char>::empty());
        assert(text@ =~= enc_doc(entry_models(out@)));
        assert forall|v: Seq<EntryModel>| #[trigger] enc_doc(v) == text@ implies entry_models(out@)
            == v by {
            let u = v.subrange(out@.len() as int, v.len() as int);
            assert(rest@ == enc_doc(u));
            if u.len() > 0 {
                lemma_entry_parts(u[0]);
                assert(enc_doc(u) == enc_entry(u[0]) + enc_doc(u.drop_first()));
                assert(enc_doc(u).len() >= enc_entry(u[0]).len());
                assert(false);
            }
            assert(out@.len() == v.len());
            assert(v.subrange(0, out@.len() as int) =~= v);
        };
    }
    Ok(out)
}

} // verus!

//! Character-level text utilities: lexicographic key order, decimal
//! rendering of integers, and small string builders used for messages.

use vstd::prelude::*;

verus! {

/// Strict lexicographic order on character sequences, by code point.
pub open spec fn chars_lt(a: Seq<char>, b: Seq<char>) -> bool
    decreases a.len(),
{
    if b.len() == 0 {
        false
    } else if a.len() == 0 {
        true
    } else if a[0] == b[0] {
        chars_lt(a.skip(1), b.skip(1))
    } else {
        (a[0] as int) < (b[0] as int)
    }
}

proof fn lemma_chars_lt_skip(a: Seq<char>, b: Seq<char>, i: int)
    requires
        0 <= i <= a.len(),
        i <= b.len(),
        forall|j: int| 0 <= j < i ==> a[j] == b[j],
    ensures
        chars_lt(a, b) == chars_lt(a.skip(i), b.skip(i)),
    decreases i,
{
    if i > 0 {
        assert(a[0] == b[0]);
        lemma_chars_lt_skip(a.skip(1), b.skip(1), i - 1);
        assert(a.skip(1).skip(i - 1) =~= a.skip(i));
        assert(b.skip(1).skip(i - 1) =~= b.skip(i));
    } else {
        assert(a.skip(0) =~= a);
        assert(b.skip(0) =~= b);
    }
}

/// Decide `chars_lt(a@, b@)` by scanning for the first difference.
pub fn str_lt(a: &str, b: &str) -> (r: bool)
    ensures
        r == chars_lt(a@, b@),
{
    let alen = a.unicode_len();
    let blen = b.unicode_len();
    let mut i: usize = 0;
    loop
        invariant
            0 <= i <= alen,
            i <= blen,
            alen == a@.len(),
            blen == b@.len(),
            forall|j: int| 0 <= j < i ==> a@[j] == b@[j],
        decreases alen - i,
    {
        proof {
            lemma_chars_lt_skip(a@, b@, i as int);
        }
        if i >= alen {
            return i < blen;
        }
        if i >= blen {
            return false;
        }
        let ca = a.get_char(i);
        let cb = b.get_char(i);
        proof {
            assert(ca as u32 == ca as int);
            assert(cb as u32 == cb as int);
        }
        if ca as u32 != cb as u32 {
            return (ca as u32) < (cb as u32);
        }
        proof {
            assert(a@[i as int] as u32 == b@[i as int] as u32);
            assert(a@[i as int] == b@[i as int]);
        }
        i += 1;
    }
}

/// The key order never relates a key to itself.
pub proof fn lemma_chars_lt_irrefl(a: Seq<char>)
    ensures
        !chars_lt(a, a),
    decreases a.len(),
{
    if a.len() > 0 {
        lemma_chars_lt_irrefl(a.skip(1));
    }
}

/// The key order relates any two distinct keys.
pub proof fn lemma_chars_lt_connex(a: Seq<char>, b: Seq<char>)
    ensures
        a == b || chars_lt(a, b) || chars_lt(b, a),
    decreases a.len(),
{
    if a.len() == 0 && b.len() == 0 {
        assert(a =~= b);
    } else if a.len() > 0 && b.len() > 0 && a[0] == b[0] {
        lemma_chars_lt_connex(a.skip(1), b.skip(1));
        if a.skip(1) == b.skip(1) {
            assert(a.skip(1).len() == a.len() - 1);
            assert(b.skip(1).len() == b.len() - 1);
            assert(forall|i: int| 0 < i < a.len() ==> a[i] == a.skip(1)[i - 1]);
            assert(forall|i: int| 0 < i < b.len() ==> b[i] == b.skip(1)[i - 1]);
            assert(a =~= b);
        }
    } else if a.len() > 0 && b.len() > 0 {
        assert(a[0] as int != b[0] as int);
    }
}

/// The key order is transitive.
pub proof fn lemma_chars_lt_trans(a: Seq<char>, b: Seq<char>, c: Seq<char>)
    requires
        chars_lt(a, b),
        chars_lt(b, c),
    ensures
        chars_lt(a, c),
    decreases a.len(),
{
    if a.len() > 0 && b.len() > 0 && c.len() > 0 && a[0] == b[0] && b[0] == c[0] {
        lemma_chars_lt_trans(a.skip(1), b.skip(1), c.skip(1));
    }
}

/// The key with every underscore replaced by a hyphen.
pub open spec fn dashed(s: Seq<char>) -> Seq<char> {
    s.map_values(|c: char| if c == '_' { '-' } else { c })
}

/// Build the hyphenated alias of a key.
pub fn dashed_str(s: &str) -> (r: String)
    ensures
        r@ == dashed(s@),
{
    let len = s.unicode_len();
    let mut out = String::new();
    let mut i: usize = 0;
    while i < len
        invariant
            0 <= i <= len,
            len == s@.len(),
            out@ == dashed(s@.take(i as int)),
        decreases len - i,
    {
        let c = s.get_char(i);
        if c == '_' {
            out.append("-");
            proof {
                reveal_strlit("-");
            }
        } else {
            let piece = s.substring_char(i, i + 1);
            out.append(piece);
        }
        proof {
            assert(out@ =~= dashed(s@.take(i + 1)));
        }
        i += 1;
    }
    proof {
        assert(s@.take(len as int) =~= s@);
    }
    out
}

/// Whether the key begins with an underscore (caller-private escape hatch).
pub fn starts_underscore(s: &str) -> (r: bool)
    ensures
        r == (s@.len() > 0 && s@[0] == '_'),
{
    if s.unicode_len() == 0 {
        false
    } else {
        s.get_char(0) == '_'
    }
}

/// The character for one decimal digit.
pub open spec fn digit_char(d: nat) -> char {
    if d == 0 {
        '0'
    } else if d == 1 {
        '1'
    } else if d == 2 {
        '2'
    } else if d == 3 {
        '3'
    } else if d == 4 {
        '4'
    } else if d == 5 {
        '5'
    } else if d == 6 {
        '6'
    } else if d == 7 {
        '7'
    } else if d == 8 {
        '8'
    } else {
        '9'
    }
}

/// Canonical decimal rendering of a natural number, no leading zeros.
pub open spec fn nat_dec(n: nat) -> Seq<char>
    decreases n,
{
    if n < 10 {
        seq![digit_char(n)]
    } else {
        nat_dec(n / 10) + seq![digit_char(n % 10)]
    }
}

/// Canonical decimal rendering of an integer: a minus sign when negative.
pub open spec fn int_dec(n: int) -> Seq<char> {
    if n >= 0 {
        nat_dec(n as nat)
    } else {
        seq!['-'] + nat_dec((-n) as nat)
    }
}

spec fn digits_chars(ds: Seq<u64>) -> Seq<char>
    decreases ds.len(),
{
    if ds.len() == 0 {
        Seq::empty()
    } else {
        seq![digit_char(ds.last() as nat)] + digits_chars(ds.drop_last())
    }
}

fn append_digit(out: &mut String, d: u64)
    requires
        d < 10,
    ensures
        final(out)@ == old(out)@ + seq![digit_char(d as nat)],
{
    let table: &str = "0123456789";
    proof {
        reveal_strlit("0123456789");
    }
    let piece = table.substring_char(d as usize, d as usize + 1);
    out.append(piece);
    proof {
        assert(piece@ =~= seq![digit_char(d as nat)]);
    }
}

/// Render an unsigned number in canonical decimal.
pub fn u64_dec_str(n: u64) -> (r: String)
    ensures
        r@ == nat_dec(n as nat),
{
    let mut out = String::new();
    if n == 0 {
        out.append("0");
        proof {
            reveal_strlit("0");
            assert(out@ =~= nat_dec(0));
        }
        return out;
    }
    let mut ds: Vec<u64> = Vec::new();
    let mut x: u64 = n;
    while x > 0
        invariant
            0 <= x,
            forall|k: int| 0 <= k < ds@.len() ==> ds@[k] < 10,
            x > 0 ==> nat_dec(n as nat) == nat_dec(x as nat) + digits_chars(ds@),
            x == 0 ==> ds@.len() > 0 && nat_dec(n as nat) == digits_chars(ds@),
        decreases x,
    {
        let d = x % 10;
        let ghost pre = ds@;
        ds.push(d);
        proof {
            assert(ds@.drop_last() =~= pre);
            assert(digits_chars(ds@) =~= seq![digit_char(d as nat)] + digits_chars(pre));
        }
        x = x / 10;
        proof {
            if x > 0 {
                assert(nat_dec((x * 10 + d) as nat) == nat_dec(x as nat) + seq![
                    digit_char(d as nat),
                ]);
                assert(nat_dec(n as nat) =~= nat_dec(x as nat) + digits_chars(ds@));
            } else {
                assert(nat_dec(n as nat) =~= digits_chars(ds@));
            }
        }
    }
    let mut j: usize = ds.len();
    proof {
        assert(ds@.take(ds@.len() as int) =~= ds@);
        assert(out@ + digits_chars(ds@) =~= digits_chars(ds@));
    }
    while j > 0
        invariant
            0 <= j <= ds@.len(),
            forall|k: int| 0 <= k < ds@.len() ==> ds@[k] < 10,
            nat_dec(n as nat) == out@ + digits_chars(ds@.take(j as int)),
        decreases j,
    {
        j = j - 1;
        let ghost pre = out@;
        append_digit(&mut out, ds[j]);
        proof {
            let t = ds@.take(j + 1);
            assert(t.last() == ds@[j as int]);
            assert(t.drop_last() =~= ds@.take(j as int));
            assert(digits_chars(t) == seq![digit_char(ds@[j as int] as nat)] + digits_chars(
                ds@.take(j as int),
            ));
            assert(pre + digits_chars(t) =~= out@ + digits_chars(ds@.take(j as int)));
        }
    }
    proof {
        assert(ds@.take(0) =~= Seq::<u64>::empty());
        assert(out@ =~= nat_dec(n as nat));
    }
    out
}

/// Render a usize in canonical decimal.
pub fn usize_dec_str(n: usize) -> (r: String)
    ensures
        r@ == nat_dec(n as nat),
{
    u64_dec_str(n as u64)
}

/// Render a signed number in canonical decimal.
pub fn i64_dec_str(n: i64) -> (r: String)
    ensures
        r@ == int_dec(n as int),
{
    if n >= 0 {
        u64_dec_str(n as u64)
    } else {
        let m: u64 = ((-1 - n) as u64) + 1;
        proof {
            assert(m as nat == (-(n as int)) as nat);
        }
        let mut out = String::new();
        out.append("-");
        let digits = u64_dec_str(m);
        out.append(digits.as_str());
        proof {
            reveal_strlit("-");
            assert(out@ =~= int_dec(n as int));
        }
        out
    }
}

/// Index of the first occurrence of `sep` in `s`, or `-1`.
pub open spec fn find_sep(s: Seq<char>, sep: char) -> int
    decreases s.len(),
{
    if s.len() == 0 {
        -1
    } else if s[0] == sep {
        0
    } else {
        let r = find_sep(s.skip(1), sep);
        if r < 0 {
            -1
        } else {
            r + 1
        }
    }
}

/// Where [`find_sep`] points, and what that means.
pub proof fn lemma_find_sep(s: Seq<char>, sep: char)
    ensures
        -1 <= find_sep(s, sep) < s.len(),
        find_sep(s, sep) >= 0 ==> s[find_sep(s, sep)] == sep,
        forall|j: int|
            0 <= j < s.len() && (find_sep(s, sep) < 0 || j < find_sep(s, sep)) ==> s[j] != sep,
    decreases s.len(),
{
    if s.len() > 0 && s[0] != sep {
        let rest = s.skip(1);
        lemma_find_sep(rest, sep);
        let r = find_sep(rest, sep);
        assert(forall|j: int| 1 <= j < s.len() ==> s[j] == rest[j - 1]);
        if r >= 0 {
            assert(s[r + 1] == rest[r]);
        }
    }
}

/// The pieces of `s` between occurrences of `sep`; empty pieces kept,
/// one (possibly empty) piece when `sep` does not occur.
pub open spec fn split_chars(s: Seq<char>, sep: char) -> Seq<Seq<char>>
    decreases s.len(),
{
    let i = find_sep(s, sep);
    if 0 <= i < s.len() {
        seq![s.take(i)] + split_chars(s.skip(i + 1), sep)
    } else {
        seq![s]
    }
}

/// Split `s` at every occurrence of `sep`.
pub fn split_str(s: &str, sep: char) -> (r: Vec<String>)
    ensures
        r.deep_view() == split_chars(s@, sep),
{
    let len = s.unicode_len();
    let mut acc: Vec<String> = Vec::new();
    let mut start: usize = 0;
    let mut i: usize = 0;
    proof {
        assert(s@.skip(0) =~= s@);
        assert(acc.deep_view() =~= Seq::<Seq<char>>::empty());
        assert(acc.deep_view() + split_chars(s@, sep) =~= split_chars(s@, sep));
    }
    while i < len
        invariant
            0 <= start <= i <= len,
            len == s@.len(),
            forall|j: int| start <= j < i ==> s@[j] != sep,
            split_chars(s@, sep) == acc.deep_view() + split_chars(s@.skip(start as int), sep),
        decreases len - i,
    {
        let c = s.get_char(i);
        if c == sep {
            let piece = s.substring_char(start, i);
            let ghost pre = acc.deep_view();
            acc.push(piece.to_owned());
            proof {
                let tail = s@.skip(start as int);
                lemma_find_sep(tail, sep);
                assert(tail[i - start] == sep);
                assert(forall|j: int| 0 <= j < i - start ==> tail[j] != sep);
                assert(find_sep(tail, sep) == i - start);
                assert(split_chars(tail, sep) == seq![tail.take(i - start)] + split_chars(
                    tail.skip(i - start + 1),
                    sep,
                ));
                assert(tail.take(i - start) =~= piece@);
                assert(tail.skip(i - start + 1) =~= s@.skip(i + 1));
                assert(acc.deep_view() =~= pre.push(piece@));
                assert(pre + split_chars(tail, sep) =~= acc.deep_view() + split_chars(
                    s@.skip(i + 1),
                    sep,
                ));
            }
            start = i + 1;
        }
        i += 1;
    }
    let last = s.substring_char(start, len);
    let ghost pre = acc.deep_view();
    acc.push(last.to_owned());
    proof {
        let tail = s@.skip(start as int);
        lemma_find_sep(tail, sep);
        assert(forall|j: int| 0 <= j < tail.len() ==> tail[j] != sep);
        assert(find_sep(tail, sep) == -1);
        assert(split_chars(tail, sep) == seq![tail]);
        assert(tail =~= last@);
        assert(acc.deep_view() =~= pre.push(last@));
        assert(pre + seq![tail] =~= acc.deep_view());
        assert(acc.deep_view() =~= split_chars(s@, sep));
    }
    acc
}

/// One key rendered inside double quotes.
pub open spec fn quote1(k: Seq<char>) -> Seq<char> {
    seq!['"'] + k + seq!['"']
}

/// Keys rendered quoted and separated by a comma and a space.
pub open spec fn quoted_join(ks: Seq<Seq<char>>) -> Seq<char>
    decreases ks.len(),
{
    if ks.len() == 0 {
        Seq::empty()
    } else if ks.len() == 1 {
        quote1(ks[0])
    } else {
        quote1(ks[0]) + ", "@ + quoted_join(ks.skip(1))
    }
}

proof fn lemma_quoted_join_push(ks: Seq<Seq<char>>, k: Seq<char>)
    requires
        ks.len() > 0,
    ensures
        quoted_join(ks.push(k)) == quoted_join(ks) + ", "@ + quote1(k),
    decreases ks.len(),
{
    let ext = ks.push(k);
    if ks.len() == 1 {
        assert(ext.skip(1) =~= seq![k]);
        assert(quoted_join(ext.skip(1)) == quote1(k));
    } else {
        lemma_quoted_join_push(ks.skip(1), k);
        assert(ext.skip(1) =~= ks.skip(1).push(k));
        assert(quoted_join(ext) == quote1(ks[0]) + ", "@ + quoted_join(ks.skip(1).push(k)));
        assert(quoted_join(ext) =~= quoted_join(ks) + ", "@ + quote1(k));
    }
}

fn append_quoted(out: &mut String, k: &String)
    ensures
        final(out)@ == old(out)@ + quote1(k@),
{
    out.append("\"");
    out.append(k.as_str());
    out.append("\"");
    proof {
        reveal_strlit("\"");
        assert(final(out)@ =~= old(out)@ + quote1(k@));
    }
}

/// Build the quoted, comma-separated rendering of the given keys.
pub fn quoted_join_str(keys: &Vec<String>) -> (r: String)
    ensures
        r@ == quoted_join(keys.deep_view()),
{
    let mut out = String::new();
    let mut i: usize = 0;
    while i < keys.len()
        invariant
            0 <= i <= keys@.len(),
            out@ == quoted_join(keys.deep_view().take(i as int)),
        decreases keys@.len() - i,
    {
        let ghost dv = keys.deep_view();
        if i == 0 {
            append_quoted(&mut out, &keys[0]);
            proof {
                assert(dv.take(1) =~= seq![dv[0]]);
                assert(quoted_join(dv.take(1)) == quote1(dv[0]));
            }
        } else {
            out.append(", ");
            append_quoted(&mut out, &keys[i]);
            proof {
                reveal_strlit(", ");
                assert(dv.take(i as int).len() > 0);
                lemma_quoted_join_push(dv.take(i as int), dv[i as int]);
                assert(dv.take(i as int).push(dv[i as int]) =~= dv.take(i + 1));
                assert(out@ =~= quoted_join(dv.take(i + 1)));
            }
        }
        i += 1;
    }
    proof {
        assert(keys.deep_view().take(keys@.len() as int) =~= keys.deep_view());
    }
    out
}

} // verus!

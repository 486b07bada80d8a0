//! Small verified building blocks for assembling text.

use vstd::prelude::*;
use vstd::string::StringExecFns;
use vstd::utf8::encode_utf8;

verus! {

/// The parts joined with `sep` between each two neighbours.
pub open spec fn join(parts: Seq<Seq<char>>, sep: Seq<char>) -> Seq<char>
    decreases parts.len(),
{
    if parts.len() == 0 {
        Seq::empty()
    } else if parts.len() == 1 {
        parts[0]
    } else {
        join(parts.drop_last(), sep) + sep + parts.last()
    }
}

/// `unit` written `n` times in a row.
pub open spec fn repeat(unit: Seq<char>, n: nat) -> Seq<char>
    decreases n,
{
    if n == 0 {
        Seq::empty()
    } else {
        repeat(unit, (n - 1) as nat) + unit
    }
}

/// The views of a sequence of strings.
pub open spec fn views(parts: Seq<String>) -> Seq<Seq<char>> {
    Seq::new(parts.len(), |i: int| parts[i]@)
}

/// The decimal digit for `d`, which is below ten.
pub open spec fn digit(d: nat) -> Seq<char> {
    if d == 0 {
        "0"@
    } else if d == 1 {
        "1"@
    } else if d == 2 {
        "2"@
    } else if d == 3 {
        "3"@
    } else if d == 4 {
        "4"@
    } else if d == 5 {
        "5"@
    } else if d == 6 {
        "6"@
    } else if d == 7 {
        "7"@
    } else if d == 8 {
        "8"@
    } else {
        "9"@
    }
}

/// The decimal numeral for `n`, without leading zeros.
pub open spec fn decimal(n: nat) -> Seq<char>
    decreases n,
{
    if n < 10 {
        digit(n)
    } else {
        decimal(n / 10) + digit(n % 10)
    }
}

/// Two pieces of text in a row.
pub fn glue2(a: &str, b: &str) -> (r: String)
    ensures
        r@ == a@ + b@,
{
    let mut out = String::from_str(a);
    out.append(b);
    out
}

/// Three pieces of text in a row.
pub fn glue3(a: &str, b: &str, c: &str) -> (r: String)
    ensures
        r@ == a@ + b@ + c@,
{
    let mut out = String::from_str(a);
    out.append(b);
    out.append(c);
    out
}

/// Five pieces of text in a row.
pub fn glue5(a: &str, b: &str, c: &str, d: &str, e: &str) -> (r: String)
    ensures
        r@ == a@ + b@ + c@ + d@ + e@,
{
    let mut out = String::from_str(a);
    out.append(b);
    out.append(c);
    out.append(d);
    out.append(e);
    out
}

/// Joins the strings with `sep` between each two neighbours.
pub fn join_strings(parts: &Vec<String>, sep: &str) -> (r: String)
    ensures
        r@ == join(views(parts@), sep@),
{
    let mut out = String::new();
    let ghost all = views(parts@);
    let mut i: usize = 0;
    while i < parts.len()
        invariant
            i <= parts.len(),
            all == views(parts@),
            out@ == join(all.take(i as int), sep@),
        decreases parts.len() - i,
    {
        proof {
            assert(all.take(i + 1).drop_last() =~= all.take(i as int));
            assert(all.take(i + 1).last() == parts[i as int]@);
        }
        if i == 0 {
            out.append(parts[i].as_str());
            assert(out@ =~= parts[i as int]@);
        } else {
            out.append(sep);
            out.append(parts[i].as_str());
        }
        i = i + 1;
    }
    proof {
        assert(all.take(parts.len() as int) =~= all);
    }
    out
}

/// Writes `unit` `n` times in a row.
pub fn repeat_str(unit: &str, n: usize) -> (r: String)
    ensures
        r@ == repeat(unit@, n as nat),
{
    let mut out = String::new();
    let mut i: usize = 0;
    while i < n
        invariant
            i <= n,
            out@ == repeat(unit@, i as nat),
        decreases n - i,
    {
        out.append(unit);
        i = i + 1;
    }
    out
}

/// The text of one decimal digit.
fn digit_str(d: usize) -> (r: &'static str)
    requires
        d < 10,
    ensures
        r@ == digit(d as nat),
{
    if d == 0 {
        "0"
    } else if d == 1 {
        "1"
    } else if d == 2 {
        "2"
    } else if d == 3 {
        "3"
    } else if d == 4 {
        "4"
    } else if d == 5 {
        "5"
    } else if d == 6 {
        "6"
    } else if d == 7 {
        "7"
    } else if d == 8 {
        "8"
    } else {
        "9"
    }
}

/// Writes `n` as a decimal numeral.
pub fn decimal_string(n: usize) -> (r: String)
    ensures
        r@ == decimal(n as nat),
    decreases n,
{
    if n < 10 {
        String::from_str(digit_str(n))
    } else {
        let mut out = decimal_string(n / 10);
        out.append(digit_str(n % 10));
        out
    }
}

/// Whether `a` comes strictly before `b` when the two are compared byte by
/// byte from position `from` on, a proper prefix coming before what extends
/// it.
pub open spec fn bytes_before_from(a: Seq<u8>, b: Seq<u8>, from: nat) -> bool
    decreases a.len() - from,
{
    if from >= b.len() {
        false
    } else if from >= a.len() {
        true
    } else if a[from as int] != b[from as int] {
        a[from as int] < b[from as int]
    } else {
        bytes_before_from(a, b, from + 1)
    }
}

/// Whether the text `a` comes strictly before `b` in the lexicographic order
/// of their UTF-8 bytes, which is the order of strings.
pub open spec fn text_before(a: Seq<char>, b: Seq<char>) -> bool {
    bytes_before_from(encode_utf8(a), encode_utf8(b), 0)
}

/// Where `x` goes into the ordered list `sorted`: before the first text at
/// or after position `from` that comes strictly after `x`, or at the end.
pub open spec fn insert_point(sorted: Seq<Seq<char>>, x: Seq<char>, from: nat) -> nat
    decreases sorted.len() - from,
{
    if from >= sorted.len() {
        sorted.len()
    } else if text_before(x, sorted[from as int]) {
        from
    } else {
        insert_point(sorted, x, from + 1)
    }
}

/// The texts in lexicographic order, each as often as it occurs.
pub open spec fn sort_texts(texts: Seq<Seq<char>>) -> Seq<Seq<char>>
    decreases texts.len(),
{
    if texts.len() == 0 {
        Seq::empty()
    } else {
        let rest = sort_texts(texts.drop_last());
        rest.insert(insert_point(rest, texts.last(), 0) as int, texts.last())
    }
}

/// Tells whether `a` comes strictly before `b` in the order of strings.
pub fn str_before(a: &str, b: &str) -> (r: bool)
    ensures
        r == text_before(a@, b@),
{
    let x = a.as_bytes();
    let y = b.as_bytes();
    let mut i: usize = 0;
    loop
        invariant
            x@ == encode_utf8(a@),
            y@ == encode_utf8(b@),
            i <= x@.len(),
            i <= y@.len(),
            text_before(a@, b@) == bytes_before_from(x@, y@, i as nat),
        decreases x@.len() - i,
    {
        if i >= y.len() {
            return false;
        }
        if i >= x.len() {
            return true;
        }
        if x[i] != y[i] {
            return x[i] < y[i];
        }
        i = i + 1;
    }
}

/// Tells whether two lists hold the same texts in the same order.
pub fn same_texts(a: &Vec<String>, b: &Vec<String>) -> (r: bool)
    ensures
        r == (views(a@) == views(b@)),
{
    if a.len() != b.len() {
        assert(views(a@).len() != views(b@).len());
        return false;
    }
    let mut i: usize = 0;
    while i < a.len()
        invariant
            a.len() == b.len(),
            i <= a.len(),
            forall|k: int| 0 <= k < i ==> a[k]@ == b[k]@,
        decreases a.len() - i,
    {
        if !(a[i] == b[i]) {
            assert(views(a@)[i as int] != views(b@)[i as int]);
            return false;
        }
        i = i + 1;
    }
    assert(views(a@) =~= views(b@));
    true
}

/// Puts the strings in lexicographic order.
pub fn sort_strings(texts: Vec<String>) -> (r: Vec<String>)
    ensures
        views(r@) == sort_texts(views(texts@)),
{
    let mut out: Vec<String> = Vec::new();
    let ghost all = views(texts@);
    let mut i: usize = 0;
    assert(views(out@) =~= sort_texts(all.take(0)));
    while i < texts.len()
        invariant
            i <= texts.len(),
            all == views(texts@),
            views(out@) == sort_texts(all.take(i as int)),
        decreases texts.len() - i,
    {
        let ghost sorted = views(out@);
        let mut j: usize = 0;
        while j < out.len() && !str_before(texts[i].as_str(), out[j].as_str())
            invariant
                j <= out.len(),
                i < texts.len(),
                sorted == views(out@),
                insert_point(sorted, texts[i as int]@, 0) == insert_point(
                    sorted,
                    texts[i as int]@,
                    j as nat,
                ),
            decreases out.len() - j,
        {
            j = j + 1;
        }
        out.insert(j, texts[i].clone());
        proof {
            assert(all.take(i + 1).drop_last() =~= all.take(i as int));
            assert(all.take(i + 1).last() == texts[i as int]@);
            assert(views(out@) =~= sorted.insert(j as int, texts[i as int]@));
        }
        i = i + 1;
    }
    proof {
        assert(all.take(texts.len() as int) =~= all);
    }
    out
}

/// The text that `{:?}` writes for a string: the string between double
/// quotes, with the characters that Rust escapes in a string literal
/// escaped.
pub uninterp spec fn quoted(s: Seq<char>) -> Seq<char>;

/// Writes the string as `{:?}` does, which is std's `Debug` for `str`:
/// between double quotes and escaped. The contract names the result and
/// says no more of it.
#[verifier::external_body]
pub(crate) fn quote(s: &str) -> (r: String)
    ensures
        r@ == quoted(s@),
{
    format!("{:?}", s)
}

/// The text with a backslash before each double quote.
pub open spec fn escape_quotes(s: Seq<char>) -> Seq<char>
    decreases s.len(),
{
    if s.len() == 0 {
        Seq::empty()
    } else if s.last() == '"' {
        escape_quotes(s.drop_last()) + seq!['\\', '"']
    } else {
        escape_quotes(s.drop_last()).push(s.last())
    }
}

/// Puts a backslash before each double quote, by std's `str::replace`,
/// which replaces every match of the pattern, here the one character `"`,
/// by the given text, here `\"`, and keeps the rest as it is.
#[verifier::external_body]
pub(crate) fn escape_quotes_in(s: &str) -> (r: String)
    ensures
        r@ == escape_quotes(s@),
{
    s.replace('"', "\\\"")
}

/// Each digit is one character, and different digits are different
/// characters.
pub proof fn lemma_digit_injective(a: nat, b: nat)
    requires
        a < 10,
        b < 10,
    ensures
        digit(a).len() == 1,
        digit(a) == digit(b) ==> a == b,
{
    reveal_strlit("0");
    reveal_strlit("1");
    reveal_strlit("2");
    reveal_strlit("3");
    reveal_strlit("4");
    reveal_strlit("5");
    reveal_strlit("6");
    reveal_strlit("7");
    reveal_strlit("8");
    reveal_strlit("9");
    if digit(a) == digit(b) {
        assert(digit(a)[0] == digit(b)[0]);
    }
}

/// A decimal numeral has at least one digit, and more than one from ten on.
pub proof fn lemma_decimal_len(n: nat)
    ensures
        decimal(n).len() >= 1,
        n >= 10 ==> decimal(n).len() >= 2,
        n < 10 ==> decimal(n).len() == 1,
    decreases n,
{
    lemma_digit_injective(n % 10, n % 10);
    if n >= 10 {
        lemma_decimal_len(n / 10);
    }
}

/// Different numbers have different decimal numerals.
pub proof fn lemma_decimal_injective(a: nat, b: nat)
    requires
        decimal(a) == decimal(b),
    ensures
        a == b,
    decreases a,
{
    lemma_decimal_len(a);
    lemma_decimal_len(b);
    lemma_digit_injective(a % 10, b % 10);
    lemma_digit_injective(b % 10, a % 10);
    if a >= 10 {
        assert(b >= 10);
        let x = decimal(a / 10);
        let y = decimal(b / 10);
        let da = digit(a % 10);
        let db = digit(b % 10);
        assert(decimal(a) == x + da);
        assert(decimal(b) == y + db);
        assert(x =~= (x + da).take(x.len() as int));
        assert(y =~= (y + db).take(y.len() as int));
        assert(da =~= (x + da).skip(x.len() as int));
        assert(db =~= (y + db).skip(y.len() as int));
        assert(x.len() == y.len());
        lemma_decimal_injective(a / 10, b / 10);
    }
}

/// What stands behind the same text is the same where the wholes are the
/// same.
pub proof fn lemma_same_front(front: Seq<char>, a: Seq<char>, b: Seq<char>)
    requires
        front + a == front + b,
    ensures
        a == b,
{
    assert(a =~= (front + a).skip(front.len() as int));
    assert(b =~= (front + b).skip(front.len() as int));
}

/// Whether no text of the list comes strictly before one that stands
/// earlier in it.
pub open spec fn in_order(texts: Seq<Seq<char>>) -> bool {
    forall|i: int, j: int|
        0 <= i < j < texts.len() ==> !text_before(#[trigger] texts[j], #[trigger] texts[i])
}

/// The order of byte sequences from a position on is transitive.
pub proof fn lemma_bytes_before_transitive(a: Seq<u8>, b: Seq<u8>, c: Seq<u8>, from: nat)
    requires
        bytes_before_from(a, b, from),
        bytes_before_from(b, c, from),
    ensures
        bytes_before_from(a, c, from),
    decreases a.len() - from,
{
    if from < a.len() && from < b.len() && from < c.len() && a[from as int] == b[from as int]
        && b[from as int] == c[from as int] {
        lemma_bytes_before_transitive(a, b, c, from + 1);
    }
}

/// The order of texts is transitive.
pub proof fn lemma_text_before_transitive(a: Seq<char>, b: Seq<char>, c: Seq<char>)
    requires
        text_before(a, b),
        text_before(b, c),
    ensures
        text_before(a, c),
{
    lemma_bytes_before_transitive(encode_utf8(a), encode_utf8(b), encode_utf8(c), 0);
}

/// Where a text goes into a list lies within the list, no text before that
/// place comes strictly after it, and the text at that place does.
pub proof fn lemma_insert_point(sorted: Seq<Seq<char>>, x: Seq<char>, from: nat)
    requires
        from <= sorted.len(),
    ensures
        from <= insert_point(sorted, x, from) <= sorted.len(),
        forall|j: int|
            from <= j < insert_point(sorted, x, from) ==> !text_before(x, #[trigger] sorted[j]),
        insert_point(sorted, x, from) < sorted.len() ==> text_before(
            x,
            sorted[insert_point(sorted, x, from) as int],
        ),
    decreases sorted.len() - from,
{
    if from < sorted.len() && !text_before(x, sorted[from as int]) {
        lemma_insert_point(sorted, x, from + 1);
    }
}

/// Sorting puts the texts in order, and keeps each text as often as it
/// occurs.
pub proof fn lemma_sort_texts(texts: Seq<Seq<char>>)
    ensures
        in_order(sort_texts(texts)),
        sort_texts(texts).len() == texts.len(),
        sort_texts(texts).to_multiset() == texts.to_multiset(),
    decreases texts.len(),
{
    if texts.len() == 0 {
        assert(sort_texts(texts) =~= texts);
    } else {
        let rest = sort_texts(texts.drop_last());
        let x = texts.last();
        lemma_sort_texts(texts.drop_last());
        lemma_insert_point(rest, x, 0);
        let at = insert_point(rest, x, 0) as int;
        let out = rest.insert(at, x);
        assert forall|i: int, j: int| 0 <= i < j < out.len() implies !text_before(
            #[trigger] out[j],
            #[trigger] out[i],
        ) by {
            if j == at {
                assert(out[i] == rest[i]);
            } else if i == at {
                assert(out[j] == rest[j - 1]);
                if text_before(out[j], x) {
                    lemma_text_before_transitive(rest[j - 1], x, rest[at]);
                    if j - 1 > at {
                        assert(!text_before(rest[j - 1], rest[at]));
                    } else {
                        lemma_bytes_irreflexive(encode_utf8(rest[at]), 0);
                    }
                }
            } else {
                let a = if i < at {
                    i
                } else {
                    i - 1
                };
                let b = if j < at {
                    j
                } else {
                    j - 1
                };
                assert(out[i] == rest[a]);
                assert(out[j] == rest[b]);
            }
        }
        vstd::seq_lib::to_multiset_insert(rest, at, x);
        vstd::seq_lib::to_multiset_build(texts.drop_last(), x);
        assert(texts.drop_last().push(x) =~= texts);
    }
}

/// No byte sequence comes strictly before itself.
pub proof fn lemma_bytes_irreflexive(a: Seq<u8>, from: nat)
    ensures
        !bytes_before_from(a, a, from),
    decreases a.len() - from,
{
    if from < a.len() {
        lemma_bytes_irreflexive(a, from + 1);
    }
}

/// Of two byte sequences that agree below a position, one comes strictly
/// before the other from there on, or they are the same.
pub proof fn lemma_bytes_compare(a: Seq<u8>, b: Seq<u8>, from: nat)
    requires
        from <= a.len(),
        from <= b.len(),
        forall|i: int| 0 <= i < from ==> a[i] == b[i],
    ensures
        bytes_before_from(a, b, from) || bytes_before_from(b, a, from) || a == b,
    decreases a.len() - from,
{
    if from < a.len() && from < b.len() && a[from as int] == b[from as int] {
        lemma_bytes_compare(a, b, from + 1);
    } else if from == a.len() && from == b.len() {
        assert(a =~= b);
    }
}

/// Of two byte sequences, not each comes strictly before the other.
pub proof fn lemma_bytes_asymmetric(a: Seq<u8>, b: Seq<u8>, from: nat)
    requires
        bytes_before_from(a, b, from),
    ensures
        !bytes_before_from(b, a, from),
    decreases a.len() - from,
{
    if from < a.len() && from < b.len() && a[from as int] == b[from as int] {
        lemma_bytes_asymmetric(a, b, from + 1);
    }
}

/// Of two texts, one comes strictly before the other, or they are the
/// same; and not each comes before the other.
pub proof fn lemma_text_compare(a: Seq<char>, b: Seq<char>)
    ensures
        text_before(a, b) || text_before(b, a) || a == b,
        !(text_before(a, b) && text_before(b, a)),
        !text_before(a, a),
{
    lemma_bytes_compare(encode_utf8(a), encode_utf8(b), 0);
    if text_before(a, b) {
        lemma_bytes_asymmetric(encode_utf8(a), encode_utf8(b), 0);
    }
    lemma_bytes_irreflexive(encode_utf8(a), 0);
    if encode_utf8(a) == encode_utf8(b) {
        vstd::utf8::encode_utf8_decode_utf8(a);
        vstd::utf8::encode_utf8_decode_utf8(b);
    }
}

/// Whether `a` comes before `b` or is the same text.
pub open spec fn text_at_most(a: Seq<char>, b: Seq<char>) -> bool {
    !text_before(b, a)
}

/// The order of texts is a total order.
pub proof fn lemma_text_order_is_total()
    ensures
        vstd::relations::total_ordering(|a: Seq<char>, b: Seq<char>| text_at_most(a, b)),
{
    let leq = |a: Seq<char>, b: Seq<char>| text_at_most(a, b);
    assert forall|x: Seq<char>| #[trigger] leq(x, x) by {
        lemma_text_compare(x, x);
    }
    assert forall|x: Seq<char>, y: Seq<char>| #[trigger] leq(x, y) && #[trigger] leq(y, x) implies x
        == y by {
        lemma_text_compare(x, y);
    }
    assert forall|x: Seq<char>, y: Seq<char>, z: Seq<char>| #[trigger] leq(x, y) && #[trigger] leq(
        y,
        z,
    ) implies leq(x, z) by {
        lemma_text_compare(x, y);
        lemma_text_compare(y, z);
        if text_before(z, x) {
            if x != y && y != z {
                lemma_text_before_transitive(y, z, x);
            }
        }
    }
    assert forall|x: Seq<char>, y: Seq<char>| #[trigger] leq(x, y) || #[trigger] leq(y, x) by {
        lemma_text_compare(x, y);
    }
}

/// Sorting does not depend on the order in which the texts come: lists that
/// hold the same texts, each as often, are sorted to the same list.
pub proof fn lemma_sort_is_canonical(a: Seq<Seq<char>>, b: Seq<Seq<char>>)
    requires
        a.to_multiset() == b.to_multiset(),
    ensures
        sort_texts(a) == sort_texts(b),
{
    let leq = |x: Seq<char>, y: Seq<char>| text_at_most(x, y);
    lemma_sort_texts(a);
    lemma_sort_texts(b);
    lemma_text_order_is_total();
    let x = sort_texts(a);
    let y = sort_texts(b);
    assert(vstd::relations::sorted_by(x, leq)) by {
        assert forall|i: int, j: int| 0 <= i < j < x.len() implies #[trigger] leq(x[i], x[j]) by {
            assert(!text_before(x[j], x[i]));
        }
    }
    assert(vstd::relations::sorted_by(y, leq)) by {
        assert forall|i: int, j: int| 0 <= i < j < y.len() implies #[trigger] leq(y[i], y[j]) by {
            assert(!text_before(y[j], y[i]));
        }
    }
    vstd::seq_lib::lemma_sorted_unique(x, y, leq);
}

} // verus!

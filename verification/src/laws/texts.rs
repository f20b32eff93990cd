//! What holds of texts: what is put together with a separator comes apart again, and
//! what a number, a form or a target spells is what was written.

use crate::digits::{
    digits_of, law_digits_read_back, power_text, scientific_parts, stripped, trimmed, word_for,
};
use crate::float::Single;
use crate::form::{decoded, points_of, replaced};
use crate::rest::{field_at, fields, fields_of, request_of};
use crate::text::{
    decimal, halves, integer, is_digit, lemma_until, not_before, pieces, sign_len, small,
};
use vstd::prelude::*;

verus! {

// ---- pieces ----

/// Words with a separator between them.
pub open spec fn strung(words: Seq<Seq<char>>, sep: char) -> Seq<char>
    decreases words.len(),
{
    if words.len() == 0 {
        Seq::empty()
    } else if words.len() == 1 {
        words[0]
    } else {
        strung(words.drop_last(), sep) + seq![sep] + words.last()
    }
}

/// Whether a character does not occur in a text.
pub open spec fn free_of(s: Seq<char>, c: char) -> bool {
    forall|i: int| 0 <= i < s.len() ==> #[trigger] s[i] != c
}

pub proof fn lemma_one_piece(s: Seq<char>, sep: char)
    requires
        free_of(s, sep),
    ensures
        pieces(s, sep) == seq![s],
    decreases s.len(),
{
    if s.len() > 0 {
        lemma_one_piece(s.drop_last(), sep);
        assert(s.last() == s[s.len() - 1]);
        assert(s.drop_last().push(s.last()) =~= s);
        assert(pieces(s, sep) =~= seq![s]);
    } else {
        assert(s =~= Seq::empty());
    }
}

pub proof fn lemma_last_piece(a: Seq<char>, b: Seq<char>, sep: char)
    requires
        free_of(b, sep),
    ensures
        pieces(a + seq![sep] + b, sep) == pieces(a, sep).push(b),
    decreases b.len(),
{
    let s = a + seq![sep] + b;
    if b.len() == 0 {
        assert(s.drop_last() =~= a);
        assert(b =~= Seq::empty());
    } else {
        let c = b.drop_last();
        lemma_last_piece(a, c, sep);
        assert(s.drop_last() =~= a + seq![sep] + c);
        assert(s.last() == b[b.len() - 1]);
        assert(c.push(b.last()) =~= b);
        let before = pieces(a, sep).push(c);
        assert(before.drop_last() =~= pieces(a, sep));
    }
}

/// Words that are put together with a separator that occurs in none of them come apart
/// again.
pub proof fn law_pieces_come_apart(words: Seq<Seq<char>>, sep: char)
    requires
        words.len() > 0,
        forall|i: int| 0 <= i < words.len() ==> free_of(#[trigger] words[i], sep),
    ensures
        pieces(strung(words, sep), sep) == words,
    decreases words.len(),
{
    if words.len() == 1 {
        lemma_one_piece(words[0], sep);
        assert(seq![words[0]] =~= words);
    } else {
        law_pieces_come_apart(words.drop_last(), sep);
        assert(free_of(words[words.len() - 1], sep));
        lemma_last_piece(strung(words.drop_last(), sep), words.last(), sep);
        assert(words.drop_last().push(words.last()) =~= words);
    }
}

/// The pieces of a text, put together again, are the text, and the separator occurs in
/// none of them.
pub proof fn law_pieces_make_the_text(s: Seq<char>, sep: char)
    ensures
        pieces(s, sep).len() > 0,
        strung(pieces(s, sep), sep) == s,
        forall|i: int| 0 <= i < pieces(s, sep).len() ==> free_of(#[trigger] pieces(s, sep)[i], sep),
    decreases s.len(),
{
    if s.len() > 0 {
        let t = s.drop_last();
        law_pieces_make_the_text(t, sep);
        let p = pieces(t, sep);
        let q = pieces(s, sep);
        assert(t.push(s.last()) =~= s);
        if s.last() == sep {
            assert(q.drop_last() =~= p);
            assert(strung(q, sep) =~= s);
        } else {
            assert(q.drop_last() =~= p.drop_last());
            assert(q.last() == p.last().push(s.last()));
            if p.len() == 1 {
                assert(strung(q, sep) =~= s);
            } else {
                assert(strung(p, sep) == strung(p.drop_last(), sep) + seq![sep] + p.last());
                assert(strung(q, sep) =~= s);
            }
            assert forall|i: int| 0 <= i < q.len() implies free_of(#[trigger] q[i], sep) by {
                assert(free_of(p[p.len() - 1], sep));
                if i < q.len() - 1 {
                    assert(q[i] == p[i]);
                }
            }
        }
    } else {
        assert(strung(pieces(s, sep), sep) =~= s);
    }
}

/// A text is parted at its first separator: what stands before and what stands after
/// are given back, whether or not the separator occurs again. A text without one is not
/// parted.
pub proof fn law_halves_come_apart(a: Seq<char>, b: Seq<char>, sep: char)
    requires
        free_of(a, sep),
    ensures
        halves(a + seq![sep] + b, sep) == Some((a, b)),
        halves(a, sep) is None,
{
    let s = a + seq![sep] + b;
    assert forall|j: int| 0 <= j < a.len() implies s[j] != sep by {
        assert(s[j] == a[j]);
    }
    lemma_until(s, sep, a.len());
    assert(s.take(a.len() as int) =~= a);
    assert(s.skip(a.len() as int + 1) =~= b);
    lemma_until(a, sep, a.len());
}

// ---- forms and targets ----

/// A field of a form as it is written.
pub open spec fn field_text(f: (Seq<char>, Seq<char>)) -> Seq<char> {
    f.0 + seq!['='] + f.1
}

/// Whether a field can be written: there is no separator in it.
pub open spec fn writable(f: (Seq<char>, Seq<char>)) -> bool {
    free_of(f.0, '=') && free_of(f.0, '&') && free_of(f.1, '&')
}

/// A form as it is written.
pub open spec fn form_text(form: Seq<(Seq<char>, Seq<char>)>) -> Seq<char> {
    strung(form.map_values(|f: (Seq<char>, Seq<char>)| field_text(f)), '&')
}

proof fn lemma_fields_of(form: Seq<(Seq<char>, Seq<char>)>, i: int)
    requires
        0 <= i < form.len(),
        forall|j: int| 0 <= j < form.len() ==> writable(#[trigger] form[j]),
        forall|j: int| i < j < form.len() ==> (#[trigger] form[j]).0 != form[i].0,
    ensures
        field_at(
            fields_of(form.map_values(|f: (Seq<char>, Seq<char>)| field_text(f))),
            form[i].0,
        ) == Some(form[i].1),
    decreases form.len(),
{
    let p = form.map_values(|f: (Seq<char>, Seq<char>)| field_text(f));
    let last = form[form.len() - 1];
    assert(p.last() == field_text(last));
    assert(writable(last));
    law_halves_come_apart(last.0, last.1, '=');
    let shorter = form.drop_last();
    assert(p.drop_last() =~= shorter.map_values(|f: (Seq<char>, Seq<char>)| field_text(f)));
    if i < form.len() - 1 {
        assert forall|j: int| 0 <= j < shorter.len() implies writable(#[trigger] shorter[j]) by {
            assert(shorter[j] == form[j]);
        }
        assert forall|j: int| i < j < shorter.len() implies (#[trigger] shorter[j]).0
            != shorter[i].0 by {
            assert(shorter[j] == form[j]);
        }
        lemma_fields_of(shorter, i);
        assert(last.0 != form[i].0);
    }
}

/// A form gives back the value of every field that was written into it; of several
/// fields with one name the last counts.
pub proof fn law_form_reads_back(form: Seq<(Seq<char>, Seq<char>)>, i: int)
    requires
        0 <= i < form.len(),
        forall|j: int| 0 <= j < form.len() ==> writable(#[trigger] form[j]),
        forall|j: int| i < j < form.len() ==> (#[trigger] form[j]).0 != form[i].0,
    ensures
        field_at(fields(form_text(form)), form[i].0) == Some(form[i].1),
{
    let p = form.map_values(|f: (Seq<char>, Seq<char>)| field_text(f));
    assert forall|j: int| 0 <= j < p.len() implies free_of(#[trigger] p[j], '&') by {
        assert(writable(form[j]));
        assert forall|k: int| 0 <= k < p[j].len() implies #[trigger] p[j][k] != '&' by {
            let f = form[j];
            if k < f.0.len() {
                assert(p[j][k] == f.0[k]);
            } else if k > f.0.len() {
                assert(p[j][k] == f.1[k - f.0.len() - 1]);
            }
        }
    }
    law_pieces_come_apart(p, '&');
    lemma_fields_of(form, i);
}

proof fn lemma_no_other_field(form: Seq<(Seq<char>, Seq<char>)>, key: Seq<char>)
    requires
        forall|j: int| 0 <= j < form.len() ==> writable(#[trigger] form[j]),
        forall|j: int| 0 <= j < form.len() ==> (#[trigger] form[j]).0 != key,
    ensures
        field_at(
            fields_of(form.map_values(|f: (Seq<char>, Seq<char>)| field_text(f))),
            key,
        ) is None,
    decreases form.len(),
{
    if form.len() > 0 {
        let p = form.map_values(|f: (Seq<char>, Seq<char>)| field_text(f));
        let last = form[form.len() - 1];
        assert(p.last() == field_text(last));
        assert(writable(last));
        law_halves_come_apart(last.0, last.1, '=');
        let shorter = form.drop_last();
        assert(p.drop_last() =~= shorter.map_values(|f: (Seq<char>, Seq<char>)| field_text(f)));
        assert forall|j: int| 0 <= j < shorter.len() implies writable(#[trigger] shorter[j]) by {
            assert(shorter[j] == form[j]);
        }
        assert forall|j: int| 0 <= j < shorter.len() implies (#[trigger] shorter[j]).0 != key by {
            assert(shorter[j] == form[j]);
        }
        lemma_no_other_field(shorter, key);
        assert(last.0 != key);
    }
}

/// A form has no fields but those that were written into it.
pub proof fn law_form_has_nothing_else(form: Seq<(Seq<char>, Seq<char>)>, key: Seq<char>)
    requires
        form.len() > 0,
        forall|j: int| 0 <= j < form.len() ==> writable(#[trigger] form[j]),
        forall|j: int| 0 <= j < form.len() ==> (#[trigger] form[j]).0 != key,
    ensures
        field_at(fields(form_text(form)), key) is None,
{
    let p = form.map_values(|f: (Seq<char>, Seq<char>)| field_text(f));
    assert forall|j: int| 0 <= j < p.len() implies free_of(#[trigger] p[j], '&') by {
        assert(writable(form[j]));
        assert forall|k: int| 0 <= k < p[j].len() implies #[trigger] p[j][k] != '&' by {
            let f = form[j];
            if k < f.0.len() {
                assert(p[j][k] == f.0[k]);
            } else if k > f.0.len() {
                assert(p[j][k] == f.1[k - f.0.len() - 1]);
            }
        }
    }
    law_pieces_come_apart(p, '&');
    lemma_no_other_field(form, key);
}

/// A target that is put together from the parts of a path and a query comes apart into
/// these parts and the fields of that query; a slash at the end of the path makes no
/// part; and method and body are handed on.
pub proof fn law_target_comes_apart(
    method: Seq<char>,
    parts: Seq<Seq<char>>,
    query: Seq<char>,
    body: Seq<char>,
)
    requires
        parts.len() > 0,
        parts.last().len() > 0,
        forall|i: int|
            0 <= i < parts.len() ==> free_of(#[trigger] parts[i], '/') && free_of(parts[i], '?'),
    ensures
        ({
            let path = strung(parts, '/');
            let r = request_of(method, path + seq!['?'] + query, body);
            &&& r.parts == parts
            &&& r.params == fields(query)
            &&& r.method == method
            &&& r.body == body
            &&& request_of(method, path, body).parts == parts
            &&& request_of(method, path + seq!['/'], body).parts == parts
        }),
{
    let path = strung(parts, '/');
    lemma_strung_free(parts, '/', '?');
    law_pieces_come_apart(parts, '/');
    law_halves_come_apart(path, query, '?');
    let slashed = path + seq!['/'];
    assert(free_of(slashed, '?')) by {
        assert forall|i: int| 0 <= i < slashed.len() implies #[trigger] slashed[i] != '?' by {
            if i < path.len() {
                assert(slashed[i] == path[i]);
            }
        }
    }
    law_halves_come_apart(slashed, query, '?');
    lemma_last_piece(path, Seq::<char>::empty(), '/');
    assert(path + seq!['/'] + Seq::<char>::empty() =~= slashed);
    assert(parts.push(Seq::<char>::empty()).drop_last() =~= parts);
}

proof fn lemma_strung_free(words: Seq<Seq<char>>, sep: char, c: char)
    requires
        c != sep,
        forall|i: int| 0 <= i < words.len() ==> free_of(#[trigger] words[i], c),
    ensures
        free_of(strung(words, sep), c),
    decreases words.len(),
{
    if words.len() > 1 {
        let a = strung(words.drop_last(), sep);
        lemma_strung_free(words.drop_last(), sep, c);
        let b = words[words.len() - 1];
        assert(free_of(b, c));
        let s = strung(words, sep);
        assert forall|i: int| 0 <= i < s.len() implies #[trigger] s[i] != c by {
            if i < a.len() {
                assert(s[i] == a[i]);
            } else if i > a.len() {
                assert(s[i] == b[i - a.len() - 1]);
            }
        }
    } else if words.len() == 1 {
        assert(free_of(words[0], c));
    }
}

// ---- encoded lists of points ----

/// A text with its colons and commas encoded.
pub open spec fn encoded(s: Seq<char>) -> Seq<char>
    decreases s.len(),
{
    if s.len() == 0 {
        Seq::empty()
    } else {
        (if s[0] == ':' {
            seq!['%', '3', 'A']
        } else if s[0] == ',' {
            seq!['%', '2', 'C']
        } else {
            seq![s[0]]
        }) + encoded(s.skip(1))
    }
}

/// A text with its commas encoded.
pub open spec fn half_encoded(s: Seq<char>) -> Seq<char>
    decreases s.len(),
{
    if s.len() == 0 {
        Seq::empty()
    } else {
        (if s[0] == ',' {
            seq!['%', '2', 'C']
        } else {
            seq![s[0]]
        }) + half_encoded(s.skip(1))
    }
}

proof fn lemma_colons_decode(s: Seq<char>)
    requires
        free_of(s, '%'),
    ensures
        replaced(encoded(s), '3', 'A', ':') == half_encoded(s),
    decreases s.len(),
{
    if s.len() > 0 {
        let t = s.skip(1);
        assert(free_of(t, '%')) by {
            assert forall|i: int| 0 <= i < t.len() implies #[trigger] t[i] != '%' by {
                assert(t[i] == s[i + 1]);
            }
        }
        lemma_colons_decode(t);
        let e = encoded(s);
        let r = encoded(t);
        assert(s[0] != '%');
        if s[0] == ':' {
            assert(e.skip(3) =~= r);
            assert(replaced(e, '3', 'A', ':') == seq![':'] + replaced(r, '3', 'A', ':'));
        } else if s[0] == ',' {
            let a = seq!['2', 'C'] + r;
            let b = seq!['C'] + r;
            assert(e.skip(1) =~= a);
            assert(a.skip(1) =~= b);
            assert(b.skip(1) =~= r);
            assert(replaced(b, '3', 'A', ':') == seq!['C'] + replaced(r, '3', 'A', ':'));
            assert(replaced(a, '3', 'A', ':') == seq!['2'] + replaced(b, '3', 'A', ':'));
            assert(replaced(e, '3', 'A', ':') == seq!['%'] + replaced(a, '3', 'A', ':'));
            assert(replaced(e, '3', 'A', ':') =~= half_encoded(s));
        } else {
            assert(e.skip(1) =~= r);
            assert(replaced(e, '3', 'A', ':') == seq![s[0]] + replaced(r, '3', 'A', ':'));
        }
    } else {
        assert(replaced(encoded(s), '3', 'A', ':') =~= half_encoded(s));
    }
}

proof fn lemma_commas_decode(s: Seq<char>)
    requires
        free_of(s, '%'),
    ensures
        replaced(half_encoded(s), '2', 'C', ',') == s,
    decreases s.len(),
{
    if s.len() > 0 {
        let t = s.skip(1);
        assert(free_of(t, '%')) by {
            assert forall|i: int| 0 <= i < t.len() implies #[trigger] t[i] != '%' by {
                assert(t[i] == s[i + 1]);
            }
        }
        lemma_commas_decode(t);
        let e = half_encoded(s);
        let r = half_encoded(t);
        assert(s[0] != '%');
        assert(seq![s[0]] + t =~= s);
        if s[0] == ',' {
            assert(e.skip(3) =~= r);
        } else {
            assert(e.skip(1) =~= r);
        }
        assert(replaced(e, '2', 'C', ',') == seq![s[0]] + replaced(r, '2', 'C', ','));
    } else {
        assert(replaced(half_encoded(s), '2', 'C', ',') =~= s);
    }
}

proof fn lemma_nothing_to_decode(s: Seq<char>, a: char, b: char, c: char)
    requires
        free_of(s, '%'),
    ensures
        replaced(s, a, b, c) == s,
    decreases s.len(),
{
    if s.len() > 0 {
        let t = s.skip(1);
        assert(free_of(t, '%')) by {
            assert forall|i: int| 0 <= i < t.len() implies #[trigger] t[i] != '%' by {
                assert(t[i] == s[i + 1]);
            }
        }
        lemma_nothing_to_decode(t, a, b, c);
        assert(s[0] != '%');
        assert(seq![s[0]] + t =~= s);
    } else {
        assert(replaced(s, a, b, c) =~= s);
    }
}

/// What has its colons and commas encoded is decoded again, and what has not is left
/// as it is.
pub proof fn law_encoded_text_reads_back(s: Seq<char>)
    requires
        free_of(s, '%'),
    ensures
        decoded(encoded(s)) == s,
        decoded(s) == s,
{
    lemma_colons_decode(s);
    lemma_commas_decode(s);
    lemma_nothing_to_decode(s, '3', 'A', ':');
    lemma_nothing_to_decode(s, '2', 'C', ',');
}

/// A point as it is written.
pub open spec fn point_text(p: (Seq<char>, Seq<char>)) -> Seq<char> {
    p.0 + seq![':'] + p.1
}

/// Points as they are written.
pub open spec fn points_text(points: Seq<(Seq<char>, Seq<char>)>) -> Seq<char> {
    strung(points.map_values(|p: (Seq<char>, Seq<char>)| point_text(p)), ',')
}

/// Whether a word has no character with a meaning in a list of points.
pub open spec fn plain_word(s: Seq<char>) -> bool {
    free_of(s, ':') && free_of(s, ',') && free_of(s, '%')
}

proof fn lemma_points_of(points: Seq<(Seq<char>, Seq<char>)>)
    requires
        forall|i: int|
            0 <= i < points.len() ==> plain_word((#[trigger] points[i]).0) && plain_word(
                points[i].1,
            ),
    ensures
        points_of(points.map_values(|p: (Seq<char>, Seq<char>)| point_text(p))) == Some(points),
    decreases points.len(),
{
    let w = points.map_values(|p: (Seq<char>, Seq<char>)| point_text(p));
    if points.len() > 0 {
        let last = points[points.len() - 1];
        let shorter = points.drop_last();
        assert forall|i: int| 0 <= i < shorter.len() implies plain_word((#[trigger] shorter[i]).0)
            && plain_word(shorter[i].1) by {
            assert(shorter[i] == points[i]);
        }
        lemma_points_of(shorter);
        assert(w.drop_last() =~= shorter.map_values(
            |p: (Seq<char>, Seq<char>)| point_text(p),
        ));
        assert(plain_word(last.0));
        law_halves_come_apart(last.0, last.1, ':');
        assert(w.last() == point_text(last));
        assert(shorter.push(last) =~= points);
    } else {
        assert(points_of(w)->Some_0 =~= points);
    }
}

/// A list of points comes apart into its points, whether or not its colons and commas
/// are encoded.
pub proof fn law_points_read_back(points: Seq<(Seq<char>, Seq<char>)>)
    requires
        points.len() > 0,
        forall|i: int|
            0 <= i < points.len() ==> plain_word((#[trigger] points[i]).0) && plain_word(
                points[i].1,
            ),
    ensures
        points_of(pieces(decoded(points_text(points)), ',')) == Some(points),
        points_of(pieces(decoded(encoded(points_text(points))), ',')) == Some(points),
{
    let w = points.map_values(|p: (Seq<char>, Seq<char>)| point_text(p));
    assert forall|i: int| 0 <= i < w.len() implies free_of(#[trigger] w[i], ',') && free_of(
        w[i],
        '%',
    ) by {
        let p = points[i];
        assert(plain_word(p.0) && plain_word(p.1));
        assert forall|k: int| 0 <= k < w[i].len() implies #[trigger] w[i][k] != ',' && w[i][k]
            != '%' by {
            if k < p.0.len() {
                assert(w[i][k] == p.0[k]);
            } else if k > p.0.len() {
                assert(w[i][k] == p.1[k - p.0.len() - 1]);
            }
        }
    }
    lemma_strung_free(w, ',', '%');
    law_encoded_text_reads_back(points_text(points));
    law_pieces_come_apart(w, ',');
    lemma_points_of(points);
}

/// A list with a point that has no colon is no list of points.
pub proof fn law_points_need_colons(words: Seq<Seq<char>>, i: int)
    requires
        0 <= i < words.len(),
        free_of(words[i], ':'),
    ensures
        points_of(words) is None,
    decreases words.len(),
{
    if i == words.len() - 1 {
        law_halves_come_apart(words[i], Seq::empty(), ':');
    } else {
        assert(words.drop_last()[i] == words[i]);
        law_points_need_colons(words.drop_last(), i);
    }
}

// ---- numbers ----

/// The digits of a number spell the number, with a sign or without; and one that has
/// no room in 64 bits is none.
pub proof fn law_integers_read_back(n: nat)
    ensures
        n <= i64::MAX ==> integer(digits_of(n)) == Some(n as i64),
        n <= i64::MAX ==> integer(seq!['+'] + digits_of(n)) == Some(n as i64),
        n <= i64::MAX as int + 1 ==> integer(seq!['-'] + digits_of(n)) == Some((-n) as i64),
        n > i64::MAX ==> integer(digits_of(n)) is None,
        n > i64::MAX as int + 1 ==> integer(seq!['-'] + digits_of(n)) is None,
{
    law_digits_read_back(n);
    let d = digits_of(n);
    assert(is_digit(d[0]));
    assert(d.skip(0) =~= d);
    assert((seq!['+'] + d).skip(1) =~= d);
    assert((seq!['-'] + d).skip(1) =~= d);
}

/// A digit more makes a number ten times as large, and adds the digit.
pub proof fn law_digit_by_digit(s: Seq<char>, c: char, n: i64)
    requires
        integer(s) == Some(n),
        n >= 0,
        s[0] != '-',
        '0' <= c <= '9',
        10 * n + (c as int - '0' as int) <= i64::MAX,
    ensures
        integer(s.push(c)) == Some((10 * n + (c as int - '0' as int)) as i64),
{
    let k = sign_len(s);
    let d = s.skip(k);
    let e = s.push(c).skip(k);
    assert(e =~= d.push(c));
    assert(e.drop_last() =~= d);
    assert forall|i: int| 0 <= i < e.len() implies is_digit(#[trigger] e[i]) by {
        if i < d.len() {
            assert(is_digit(d[i]));
        }
    }
}

/// Nothing but digits, after a sign or without one, spells a number.
pub proof fn law_only_digits_spell_numbers(s: Seq<char>)
    ensures
        integer(s) is Some ==> s.len() > 0 && ((s[0] == '-' || s[0] == '+') && s.len() > 1 || '0'
            <= s[0] <= '9') && (forall|i: int|
            1 <= i < s.len() ==> '0' <= #[trigger] s[i] <= '9'),
{
    if integer(s) is Some {
        let k = sign_len(s);
        let d = s.skip(k);
        assert forall|i: int| k <= i < s.len() implies '0' <= #[trigger] s[i] <= '9' by {
            assert(is_digit(d[i - k]));
            assert(d[i - k] == s[i]);
        }
    }
}

/// Capital letters are made small, and nothing else is changed.
pub proof fn law_letters_are_made_small(c: char)
    ensures
        'A' <= c <= 'Z' ==> small(c) as int == c as int + 32,
        !('A' <= c <= 'Z') ==> small(c) == c,
{
}

/// The order of words: a word is not before itself or one that it starts with, and
/// otherwise the first character that differs decides.
pub proof fn law_order_of_words(common: Seq<char>, a: Seq<char>, b: Seq<char>)
    ensures
        not_before(common + a, common),
        a.len() > 0 ==> !not_before(common, common + a),
        a.len() > 0 && b.len() > 0 && a[0] != b[0] ==> (not_before(common + a, common + b)
            <==> a[0] > b[0]),
    decreases common.len(),
{
    if common.len() > 0 {
        let rest = common.drop_first();
        law_order_of_words(rest, a, b);
        assert((common + a).drop_first() =~= rest + a);
        assert((common + b).drop_first() =~= rest + b);
    } else {
        assert(common + a =~= a);
        assert(common + b =~= b);
    }
}

/// A number in scientific notation is parted into the number before the letter and the
/// power of ten after it.
pub proof fn law_powers_come_apart(mantissa: Seq<char>, n: nat, negative: bool)
    requires
        free_of(mantissa, 'e'),
        n <= i64::MAX,
    ensures
        scientific_parts(
            mantissa + seq!['e'] + (if negative {
                seq!['-']
            } else {
                seq![]
            }) + digits_of(n),
        ) == Some((mantissa, (if negative {
            -n
        } else {
            n as int
        }) as i64)),
{
    let sign = if negative {
        seq!['-']
    } else {
        seq![]
    };
    law_integers_read_back(n);
    law_halves_come_apart(mantissa, sign + digits_of(n), 'e');
    assert(mantissa + seq!['e'] + sign + digits_of(n) =~= mantissa + seq!['e'] + (sign + digits_of(
        n,
    )));
    assert(Seq::<char>::empty() + digits_of(n) =~= digits_of(n));
}

/// A power of ten that is written has its sign and at least two digits, and reads back.
pub proof fn law_powers_read_back(e: i64)
    requires
        e > i64::MIN,
    ensures
        power_text(e).len() >= 4,
        power_text(e)[0] == 'e',
        power_text(e)[1] == '-' || power_text(e)[1] == '+',
        integer(power_text(e).skip(1)) == Some(e),
{
    reveal_strlit("e-");
    reveal_strlit("e+");
    reveal_strlit("0");
    let size: nat = if e < 0 {
        (-e) as nat
    } else {
        e as nat
    };
    law_digits_read_back(size);
    let d = digits_of(size);
    let p = if size < 10 {
        "0"@ + d
    } else {
        d
    };
    let t = power_text(e);
    assert(t.skip(1).skip(1) =~= p);
    assert(decimal(p) == size) by {
        if size < 10 {
            assert(p.drop_last() =~= "0"@);
            assert("0"@.drop_last() =~= Seq::empty());
            assert(decimal("0"@.drop_last()) == 0);
            assert(decimal("0"@) == 0);
            assert(d.drop_last() =~= Seq::empty());
            assert(decimal(d.drop_last()) == 0);
        }
    }
    assert forall|i: int| 0 <= i < p.len() implies is_digit(#[trigger] p[i]) by {
        if size < 10 {
            if i > 0 {
                assert(is_digit(d[i - 1]));
            }
        } else {
            assert(is_digit(d[i]));
        }
    }
    if size >= 10 {
        assert(d.len() >= 2) by {
            assert(digits_of(size / 10).len() > 0) by {
                law_digits_read_back(size / 10);
            }
        }
    }
}

/// Zeros at the end of a fraction say nothing: a number with a point does not end in
/// one when they are taken away, nor in the point; what is taken away is zeros, and the
/// point where nothing follows it; and a number without a point stays as it is.
pub proof fn law_idle_zeros_are_stripped(whole: Seq<char>, fraction: Seq<char>, zeros: nat)
    requires
        free_of(whole, '.'),
        free_of(fraction, '.'),
        whole.len() > 0,
        fraction.len() > 0 ==> fraction.last() != '0',
    ensures
        stripped(whole) == whole,
        stripped(whole + seq!['.'] + fraction + Seq::new(zeros, |i: int| '0')) == (
        if fraction.len() == 0 {
            whole
        } else {
            whole + seq!['.'] + fraction
        }),
{
    assert(!whole.contains('.')) by {
        if whole.contains('.') {
            let i = choose|i: int| 0 <= i < whole.len() && whole[i] == '.';
            assert(whole[i] != '.');
        }
    }
    let kept = whole + seq!['.'] + fraction;
    let tail = Seq::new(zeros, |i: int| '0');
    let s = kept + tail;
    assert(s[whole.len() as int] == '.');
    assert(s.contains('.'));
    lemma_zeros_go(kept, zeros, '0');
    if fraction.len() == 0 {
        assert(kept =~= whole + seq!['.']);
        lemma_zeros_go(whole, 1, '.');
        assert(whole[whole.len() - 1] != '.');
        assert(Seq::new(1, |i: int| '.') =~= seq!['.']);
        assert(trimmed(kept, '0') == kept);
        assert(trimmed(whole, '.') == whole);
    } else {
        assert(kept.last() == fraction[fraction.len() - 1]);
        assert(trimmed(kept, '0') == kept);
        assert(trimmed(kept, '.') == kept);
    }
}

proof fn lemma_zeros_go(s: Seq<char>, n: nat, c: char)
    ensures
        trimmed(s + Seq::new(n, |i: int| c), c) == trimmed(s, c),
    decreases n,
{
    let t = s + Seq::new(n, |i: int| c);
    if n > 0 {
        lemma_zeros_go(s, (n - 1) as nat, c);
        assert(t.drop_last() =~= s + Seq::new((n - 1) as nat, |i: int| c));
        assert(t.last() == c);
    } else {
        assert(t =~= s);
    }
}

/// The words for what has no digits: NaN, the two infinities and the two zeros, and
/// nothing else.
pub proof fn law_words_for_values(v: Single)
    ensures
        word_for(v) is None <==> v.finite() && v.bits != 0 && v.bits != 0x8000_0000,
        v.bits == 0 ==> word_for(v) == Some("0"@),
        v.bits == 0x8000_0000 ==> word_for(v) == Some("-0"@),
        v.bits == 0x7f80_0000 ==> word_for(v) == Some("inf"@),
        v.bits == 0xff80_0000 ==> word_for(v) == Some("-inf"@),
        0x7f80_0000 < v.bits < 0x8000_0000 || v.bits > 0xff80_0000 ==> word_for(v) == Some("nan"@),
{
}

} // verus!

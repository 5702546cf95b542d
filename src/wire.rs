//! The query-string wire format of query-style calls.

use vstd::prelude::*;
use vstd::string::*;
use vstd::utf8::*;

use crate::scanner::opt_text;
use crate::text::{chars_of, push_char, push_text, text_of};

verus! {

broadcast use vstd::seq::group_seq_axioms;

/// The two hex digits that stand for a character that cannot appear
/// verbatim in a query field, if `c` is one.
pub open spec fn escape_code(c: char) -> Option<(char, char)> {
    if c == '%' {
        Some(('2', '5'))
    } else if c == '&' {
        Some(('2', '6'))
    } else if c == '=' {
        Some(('3', 'D'))
    } else if c == '#' {
        Some(('2', '3'))
    } else if c == '?' {
        Some(('3', 'F'))
    } else if c == '+' {
        Some(('2', 'B'))
    } else if c == ' ' {
        Some(('2', '0'))
    } else if c == '/' {
        Some(('2', 'F'))
    } else {
        None
    }
}

/// The value of a hex digit, in either case.
pub open spec fn hex_value(c: char) -> Option<u8> {
    let v = c as u32;
    if 48 <= v <= 57 {
        Some((v - 48) as u8)
    } else if 65 <= v <= 70 {
        Some((v - 55) as u8)
    } else if 97 <= v <= 102 {
        Some((v - 87) as u8)
    } else {
        None
    }
}

/// The byte that `%` and the hex digits `h` `l` stand for.
pub open spec fn percent_byte(h: char, l: char) -> u8 {
    (hex_value(h)->0 * 16 + hex_value(l)->0) as u8
}

/// One character as it appears in a query field.
pub open spec fn escape_char(c: char) -> Seq<char> {
    match escape_code(c) {
        Some((h, l)) => seq!['%', h, l],
        None => seq![c],
    }
}

/// A text as it appears in a query field: each of `% & = # ? + /` and the
/// space is written as `%` and two hex digits.
pub open spec fn escape(s: Seq<char>) -> Seq<char>
    decreases s.len(),
{
    if s.len() == 0 {
        Seq::empty()
    } else {
        escape_char(s[0]) + escape(s.drop_first())
    }
}

/// The bytes that a query field spells, if it is well formed: `%` and two
/// hex digits stand for one byte, and any other character for its UTF-8
/// encoding.
pub open spec fn unescape_bytes(t: Seq<char>) -> Option<Seq<u8>>
    decreases t.len(),
{
    if t.len() == 0 {
        Some(Seq::empty())
    } else if t[0] == '%' {
        if t.len() >= 3 && hex_value(t[1]) is Some && hex_value(t[2]) is Some {
            match unescape_bytes(t.subrange(3, t.len() as int)) {
                Some(r) => Some(seq![percent_byte(t[1], t[2])] + r),
                None => None,
            }
        } else {
            None
        }
    } else {
        match unescape_bytes(t.drop_first()) {
            Some(r) => Some(encode_utf8(seq![t[0]]) + r),
            None => None,
        }
    }
}

/// The text that a query field spells, if it is well formed: its bytes are
/// well formed and make valid UTF-8.
pub open spec fn unescape(t: Seq<char>) -> Option<Seq<char>> {
    match unescape_bytes(t) {
        Some(b) => if valid_utf8(b) {
            Some(decode_utf8(b))
        } else {
            None
        },
        None => None,
    }
}

/// The first position at or after `i` where `c` stands in `t`.
pub open spec fn index_of(t: Seq<char>, c: char, i: int) -> Option<int>
    decreases t.len() - i,
{
    if i < 0 || i >= t.len() {
        None
    } else if t[i] == c {
        Some(i)
    } else {
        index_of(t, c, i + 1)
    }
}

/// A named field of a query, in the abstract.
pub type FieldModel = (Seq<char>, Seq<char>);

/// One field as it appears in a query string: `name=value`, both escaped.
pub open spec fn field_text(f: FieldModel) -> Seq<char> {
    escape(f.0) + seq!['='] + escape(f.1)
}

/// The query string of a list of fields: their texts joined by `&`.
pub open spec fn query_text(fs: Seq<FieldModel>) -> Seq<char>
    decreases fs.len(),
{
    if fs.len() == 0 {
        Seq::empty()
    } else if fs.len() == 1 {
        field_text(fs[0])
    } else {
        field_text(fs[0]) + seq!['&'] + query_text(fs.drop_first())
    }
}

/// The field that `t` spells: an escaped name, `=`, an escaped value.
pub open spec fn parse_field(t: Seq<char>) -> Option<FieldModel> {
    match index_of(t, '=', 0) {
        None => None,
        Some(k) => match (unescape(t.subrange(0, k)), unescape(t.subrange(k + 1, t.len() as int))) {
            (Some(n), Some(v)) => Some((n, v)),
            _ => None,
        },
    }
}

/// The fields that a query string spells, in order, if it is well formed.
pub open spec fn parse_query(t: Seq<char>) -> Option<Seq<FieldModel>>
    decreases t.len(),
{
    if t.len() == 0 {
        Some(Seq::empty())
    } else {
        match index_of(t, '&', 0) {
            None => match parse_field(t) {
                Some(f) => Some(seq![f]),
                None => None,
            },
            Some(k) => {
                if 0 <= k < t.len() {
                    match (parse_field(t.subrange(0, k)), parse_query(t.subrange(k + 1, t.len() as int))) {
                        (Some(f), Some(r)) => Some(seq![f] + r),
                        _ => None,
                    }
                } else {
                    None
                }
            },
        }
    }
}

/// The request target of a query-style call of `name`: the route path, and
/// the query string where there are fields.
pub open spec fn query_target(name: Seq<char>, fs: Seq<FieldModel>) -> Seq<char> {
    if fs.len() == 0 {
        seq!['/'] + name
    } else {
        seq!['/'] + name + seq!['?'] + query_text(fs)
    }
}

/// The value of the first field named `name`.
pub open spec fn lookup(fs: Seq<FieldModel>, name: Seq<char>) -> Option<Seq<char>>
    decreases fs.len(),
{
    if fs.len() == 0 {
        None
    } else if fs[0].0 == name {
        Some(fs[0].1)
    } else {
        lookup(fs.drop_first(), name)
    }
}

/// The values of the fields named by `names`, in that order, if each is there.
pub open spec fn lookup_all(fs: Seq<FieldModel>, names: Seq<Seq<char>>) -> Option<Seq<Seq<char>>>
    decreases names.len(),
{
    if names.len() == 0 {
        Some(Seq::empty())
    } else {
        match (lookup(fs, names[0]), lookup_all(fs, names.drop_first())) {
            (Some(v), Some(r)) => Some(seq![v] + r),
            _ => None,
        }
    }
}

proof fn lemma_escape_free(s: Seq<char>)
    ensures
        forall|i: int| 0 <= i < escape(s).len() ==> #[trigger] escape(s)[i] != '&' && escape(s)[i] != '=',
    decreases s.len(),
{
    if s.len() > 0 {
        lemma_escape_free(s.drop_first());
        let e = escape_char(s[0]);
        assert forall|i: int| 0 <= i < escape(s).len() implies #[trigger] escape(s)[i] != '&' && escape(s)[i] != '=' by {
            if i >= e.len() {
                assert(escape(s)[i] == escape(s.drop_first())[i - e.len()]);
            }
        }
    }
}

proof fn lemma_unescape_bytes_escape(s: Seq<char>)
    ensures
        unescape_bytes(escape(s)) == Some(encode_utf8(s)),
    decreases s.len(),
{
    if s.len() > 0 {
        lemma_unescape_bytes_escape(s.drop_first());
        let c = s[0];
        let t = escape(s);
        let rest = escape(s.drop_first());
        assert(seq![c].drop_first() =~= Seq::<char>::empty());
        assert(seq![c][0] == c);
        assert(encode_utf8(Seq::<char>::empty()) == Seq::<u8>::empty());
        assert(encode_utf8(seq![c].drop_first()) == Seq::<u8>::empty());
        assert(encode_utf8(seq![c]) =~= encode_scalar(c as u32));
        match escape_code(c) {
            Some((h, l)) => {
                assert(t.subrange(3, t.len() as int) =~= rest);
                assert(is_ascii_chars(seq![c]));
                is_ascii_chars_encode_utf8(seq![c]);
                assert(percent_byte(h, l) == c as u8);
                assert(seq![percent_byte(h, l)] =~= encode_utf8(seq![c]));
            },
            None => {
                assert(t.drop_first() =~= rest);
            },
        }
    }
}

/// Escaping then unescaping gives back the text.
pub proof fn lemma_unescape_escape(s: Seq<char>)
    ensures
        unescape(escape(s)) == Some(s),
{
    lemma_unescape_bytes_escape(s);
    encode_utf8_valid_utf8(s);
    encode_utf8_decode_utf8(s);
}

proof fn lemma_index_of_absent(t: Seq<char>, c: char, i: int)
    requires
        0 <= i,
        forall|j: int| i <= j < t.len() ==> t[j] != c,
    ensures
        index_of(t, c, i) is None,
    decreases t.len() - i,
{
    if i < t.len() {
        lemma_index_of_absent(t, c, i + 1);
    }
}

proof fn lemma_index_of_first(t: Seq<char>, c: char, i: int, k: int)
    requires
        0 <= i <= k < t.len(),
        t[k] == c,
        forall|j: int| i <= j < k ==> t[j] != c,
    ensures
        index_of(t, c, i) == Some(k),
    decreases k - i,
{
    if i < k {
        lemma_index_of_first(t, c, i + 1, k);
    }
}

proof fn lemma_parse_field_text(f: FieldModel)
    ensures
        parse_field(field_text(f)) == Some(f),
        forall|i: int| 0 <= i < field_text(f).len() ==> #[trigger] field_text(f)[i] != '&',
{
    let t = field_text(f);
    let a = escape(f.0);
    let b = escape(f.1);
    lemma_escape_free(f.0);
    lemma_escape_free(f.1);
    assert forall|j: int| 0 <= j < a.len() implies t[j] != '=' by {
        assert(t[j] == a[j]);
    }
    lemma_index_of_first(t, '=', 0, a.len() as int);
    assert(t.subrange(0, a.len() as int) =~= a);
    assert(t.subrange(a.len() as int + 1, t.len() as int) =~= b);
    lemma_unescape_escape(f.0);
    lemma_unescape_escape(f.1);
    assert forall|i: int| 0 <= i < t.len() implies #[trigger] t[i] != '&' by {
        if i < a.len() {
            assert(t[i] == a[i]);
        } else if i > a.len() {
            assert(t[i] == b[i - a.len() - 1]);
        }
    }
}

/// Parsing the query string of a list of fields gives back the list: names
/// and values are any texts, and they come back in order.
pub proof fn lemma_query_round_trip(fs: Seq<FieldModel>)
    ensures
        parse_query(query_text(fs)) == Some(fs),
    decreases fs.len(),
{
    if fs.len() == 1 {
        let t = field_text(fs[0]);
        lemma_parse_field_text(fs[0]);
        lemma_index_of_absent(t, '&', 0);
        assert(t.len() > 0);
        assert(seq![fs[0]] =~= fs);
    } else if fs.len() > 1 {
        let a = field_text(fs[0]);
        let rest = fs.drop_first();
        let t = query_text(fs);
        lemma_parse_field_text(fs[0]);
        lemma_query_round_trip(rest);
        assert forall|j: int| 0 <= j < a.len() implies t[j] != '&' by {
            assert(t[j] == a[j]);
        }
        lemma_index_of_first(t, '&', 0, a.len() as int);
        assert(t.subrange(0, a.len() as int) =~= a);
        assert(t.subrange(a.len() as int + 1, t.len() as int) =~= query_text(rest));
        assert(seq![fs[0]] + rest =~= fs);
    }
}

/// Where the names of the fields are pairwise distinct, looking the names up
/// in the parsed query string gives back each value.
pub proof fn lemma_query_values(fs: Seq<FieldModel>)
    requires
        forall|i: int, j: int| 0 <= i < j < fs.len() ==> fs[i].0 != fs[j].0,
    ensures
        parse_query(query_text(fs)) matches Some(p) && lookup_all(p, fs.map_values(|f: FieldModel| f.0))
            == Some(fs.map_values(|f: FieldModel| f.1)),
{
    lemma_query_round_trip(fs);
    lemma_lookup_all_distinct(fs, 0);
    assert(fs.map_values(|f: FieldModel| f.0).subrange(0, fs.len() as int) =~= fs.map_values(|f: FieldModel| f.0));
    assert(fs.map_values(|f: FieldModel| f.1).subrange(0, fs.len() as int) =~= fs.map_values(|f: FieldModel| f.1));
}

proof fn lemma_lookup_distinct(fs: Seq<FieldModel>, k: int)
    requires
        0 <= k < fs.len(),
        forall|i: int, j: int| 0 <= i < j < fs.len() ==> fs[i].0 != fs[j].0,
    ensures
        lookup(fs, fs[k].0) == Some(fs[k].1),
    decreases k,
{
    if k > 0 {
        let rest = fs.drop_first();
        assert(fs[0].0 != fs[k].0);
        assert(rest[k - 1] == fs[k]);
        lemma_lookup_distinct(rest, k - 1);
    }
}

proof fn lemma_lookup_all_distinct(fs: Seq<FieldModel>, k: int)
    requires
        0 <= k <= fs.len(),
        forall|i: int, j: int| 0 <= i < j < fs.len() ==> fs[i].0 != fs[j].0,
    ensures
        lookup_all(fs, fs.map_values(|f: FieldModel| f.0).subrange(k, fs.len() as int))
            == Some(fs.map_values(|f: FieldModel| f.1).subrange(k, fs.len() as int)),
    decreases fs.len() - k,
{
    let names = fs.map_values(|f: FieldModel| f.0).subrange(k, fs.len() as int);
    let values = fs.map_values(|f: FieldModel| f.1).subrange(k, fs.len() as int);
    if k < fs.len() {
        lemma_lookup_all_distinct(fs, k + 1);
        lemma_lookup_distinct(fs, k);
        assert(names.drop_first() =~= fs.map_values(|f: FieldModel| f.0).subrange(k + 1, fs.len() as int));
        assert(seq![fs[k].1] + fs.map_values(|f: FieldModel| f.1).subrange(k + 1, fs.len() as int) =~= values);
    } else {
        assert(names.len() == 0);
        assert(values =~= Seq::<Seq<char>>::empty());
    }
}

proof fn lemma_escape_push(a: Seq<char>, c: char)
    ensures
        escape(a.push(c)) == escape(a) + escape_char(c),
    decreases a.len(),
{
    if a.len() == 0 {
        assert(a.push(c).drop_first() =~= Seq::<char>::empty());
        assert(escape(a.push(c).drop_first()) == Seq::<char>::empty());
        assert(a.push(c)[0] == c);
        assert(escape_char(c) + Seq::<char>::empty() =~= escape_char(c));
        assert(Seq::<char>::empty() + escape_char(c) =~= escape_char(c));
    } else {
        assert(a.push(c).drop_first() =~= a.drop_first().push(c));
        lemma_escape_push(a.drop_first(), c);
        assert(escape_char(a[0]) + (escape(a.drop_first()) + escape_char(c)) =~= escape_char(a[0])
            + escape(a.drop_first()) + escape_char(c));
    }
}

proof fn lemma_query_push(a: Seq<FieldModel>, f: FieldModel)
    ensures
        query_text(a.push(f)) == if a.len() == 0 {
            field_text(f)
        } else {
            query_text(a) + seq!['&'] + field_text(f)
        },
    decreases a.len(),
{
    assert(query_text(seq![f]) == field_text(f));
    if a.len() == 0 {
        assert(a.push(f) =~= seq![f]);
    } else if a.len() == 1 {
        assert(a.push(f).drop_first() =~= seq![f]);
    } else {
        assert(a.push(f).drop_first() =~= a.drop_first().push(f));
        lemma_query_push(a.drop_first(), f);
        assert(field_text(a[0]) + seq!['&'] + (query_text(a.drop_first()) + seq!['&'] + field_text(f))
            =~= field_text(a[0]) + seq!['&'] + query_text(a.drop_first()) + seq!['&'] + field_text(f));
    }
}

fn escape_code_of(c: char) -> (r: Option<(char, char)>)
    ensures
        r == escape_code(c),
{
    if c == '%' {
        Some(('2', '5'))
    } else if c == '&' {
        Some(('2', '6'))
    } else if c == '=' {
        Some(('3', 'D'))
    } else if c == '#' {
        Some(('2', '3'))
    } else if c == '?' {
        Some(('3', 'F'))
    } else if c == '+' {
        Some(('2', 'B'))
    } else if c == ' ' {
        Some(('2', '0'))
    } else if c == '/' {
        Some(('2', 'F'))
    } else {
        None
    }
}

fn hex_digit(c: char) -> (r: Option<u8>)
    ensures
        r == hex_value(c),
{
    let v = c as u32;
    if 48 <= v && v <= 57 {
        Some((v - 48) as u8)
    } else if 65 <= v && v <= 70 {
        Some((v - 55) as u8)
    } else if 97 <= v && v <= 102 {
        Some((v - 87) as u8)
    } else {
        None
    }
}

fn push_char_bytes(out: &mut Vec<u8>, c: char)
    ensures
        final(out)@ == old(out)@ + encode_utf8(seq![c]),
{
    let mut s = String::new();
    push_char(&mut s, c);
    assert(s@ =~= seq![c]);
    let b = s.as_str().as_bytes();
    let n = b.len();
    let mut i: usize = 0;
    while i < n
        invariant
            n == b@.len(),
            b@ == encode_utf8(seq![c]),
            i <= n,
            out@ == old(out)@ + b@.subrange(0, i as int),
        decreases n - i,
    {
        out.push(b[i]);
        i = i + 1;
        assert(out@ =~= old(out)@ + b@.subrange(0, i as int));
    }
    assert(b@.subrange(0, n as int) =~= b@);
}

/// Relies on `String::from_utf8`: it succeeds exactly on valid UTF-8, and
/// the string then holds the characters that those bytes encode.
#[verifier::external_body]
fn string_from_utf8(v: Vec<u8>) -> (r: Option<String>)
    ensures
        r is Some <==> valid_utf8(v@),
        r is Some ==> r->0@ == decode_utf8(v@),
{
    match String::from_utf8(v) {
        Ok(s) => Some(s),
        Err(_) => None,
    }
}

fn push_escaped(r: &mut String, cs: &Vec<char>, from: usize, to: usize)
    requires
        from <= to <= cs@.len(),
    ensures
        final(r)@ == old(r)@ + escape(cs@.subrange(from as int, to as int)),
{
    let mut i: usize = from;
    assert(cs@.subrange(from as int, from as int) =~= Seq::<char>::empty());
    assert(old(r)@ + Seq::<char>::empty() =~= old(r)@);
    while i < to
        invariant
            from <= i <= to <= cs@.len(),
            r@ == old(r)@ + escape(cs@.subrange(from as int, i as int)),
        decreases to - i,
    {
        let c = cs[i];
        match escape_code_of(c) {
            Some((h, l)) => {
                push_char(r, '%');
                push_char(r, h);
                push_char(r, l);
            },
            None => {
                push_char(r, c);
            },
        }
        proof {
            let a = cs@.subrange(from as int, i as int);
            assert(cs@.subrange(from as int, i + 1) =~= a.push(c));
            lemma_escape_push(a, c);
        }
        i = i + 1;
    }
}

/// The text `s` as it is written in a query field.
pub fn escape_text(s: &str) -> (r: String)
    ensures
        r@ == escape(s@),
{
    let cs = chars_of(s);
    let mut r = String::new();
    push_escaped(&mut r, &cs, 0, cs.len());
    assert(cs@.subrange(0, cs@.len() as int) =~= s@);
    r
}

fn unescape_bytes_range(cs: &Vec<char>, from: usize, to: usize) -> (r: Option<Vec<u8>>)
    requires
        from <= to <= cs@.len(),
    ensures
        match unescape_bytes(cs@.subrange(from as int, to as int)) {
            Some(b) => r is Some && r->0@ == b,
            None => r is None,
        },
{
    let ghost t = cs@.subrange(from as int, to as int);
    let mut out: Vec<u8> = Vec::new();
    let mut i: usize = from;
    assert(t =~= cs@.subrange(i as int, to as int));
    proof {
        match unescape_bytes(t) {
            Some(x) => {
                assert(Seq::<u8>::empty() + x =~= x);
            },
            None => {},
        }
    }
    while i < to
        invariant
            t == cs@.subrange(from as int, to as int),
            from <= i <= to <= cs@.len(),
            unescape_bytes(t) == match unescape_bytes(cs@.subrange(i as int, to as int)) {
                Some(x) => Some(out@ + x),
                None => None,
            },
        decreases to - i,
    {
        let ghost u = cs@.subrange(i as int, to as int);
        if cs[i] == '%' {
            if to - i > 2 {
                match (hex_digit(cs[i + 1]), hex_digit(cs[i + 2])) {
                    (Some(h), Some(l)) => {
                        let b: u8 = h * 16 + l;
                        assert(b == percent_byte(cs@[i + 1], cs@[i + 2]));
                        assert(u.subrange(3, u.len() as int) =~= cs@.subrange(i + 3, to as int));
                        proof {
                            match unescape_bytes(cs@.subrange(i + 3, to as int)) {
                                Some(x) => {
                                    assert(out@ + (seq![b] + x) =~= out@.push(b) + x);
                                },
                                None => {},
                            }
                        }
                        out.push(b);
                        i = i + 3;
                    },
                    _ => {
                        return None;
                    },
                }
            } else {
                return None;
            }
        } else {
            let c = cs[i];
            assert(u.drop_first() =~= cs@.subrange(i + 1, to as int));
            let ghost before = out@;
            push_char_bytes(&mut out, c);
            proof {
                match unescape_bytes(cs@.subrange(i + 1, to as int)) {
                    Some(x) => {
                        assert(before + (encode_utf8(seq![c]) + x) =~= out@ + x);
                    },
                    None => {},
                }
            }
            i = i + 1;
        }
    }
    assert(cs@.subrange(to as int, to as int) =~= Seq::<char>::empty());
    assert(out@ + Seq::<u8>::empty() =~= out@);
    Some(out)
}

fn unescape_range(cs: &Vec<char>, from: usize, to: usize) -> (r: Option<String>)
    requires
        from <= to <= cs@.len(),
    ensures
        opt_text(r) == unescape(cs@.subrange(from as int, to as int)),
{
    match unescape_bytes_range(cs, from, to) {
        Some(b) => string_from_utf8(b),
        None => None,
    }
}

/// The text that the query field `t` spells, or `None` where a `%` is not
/// followed by two hex digits or the bytes are not valid UTF-8.
pub fn unescape_text(t: &str) -> (r: Option<String>)
    ensures
        opt_text(r) == unescape(t@),
{
    let cs = chars_of(t);
    assert(cs@.subrange(0, cs@.len() as int) =~= t@);
    unescape_range(&cs, 0, cs.len())
}

/// A named field of a query string.
pub struct Field {
    pub name: String,
    pub value: String,
}

impl View for Field {
    type V = FieldModel;

    open spec fn view(&self) -> FieldModel {
        (self.name@, self.value@)
    }
}

/// The views of a list of fields.
pub open spec fn fields_view(v: Seq<Field>) -> Seq<FieldModel> {
    v.map_values(|f: Field| f@)
}

/// The query string that carries `fields`, in order.
pub fn query_string(fields: &Vec<Field>) -> (r: String)
    ensures
        r@ == query_text(fields_view(fields@)),
{
    let ghost fs = fields_view(fields@);
    let mut r = String::new();
    let n = fields.len();
    let mut i: usize = 0;
    assert(fs.subrange(0, 0) =~= Seq::<FieldModel>::empty());
    while i < n
        invariant
            fs == fields_view(fields@),
            n == fs.len(),
            i <= n,
            r@ == query_text(fs.subrange(0, i as int)),
        decreases n - i,
    {
        let ghost before = r@;
        if i > 0 {
            push_char(&mut r, '&');
        }
        let name = chars_of(fields[i].name.as_str());
        push_escaped(&mut r, &name, 0, name.len());
        push_char(&mut r, '=');
        let value = chars_of(fields[i].value.as_str());
        push_escaped(&mut r, &value, 0, value.len());
        proof {
            let a = fs.subrange(0, i as int);
            assert(fs.subrange(0, i + 1) =~= a.push(fs[i as int]));
            lemma_query_push(a, fs[i as int]);
            assert(name@.subrange(0, name@.len() as int) =~= fs[i as int].0);
            assert(value@.subrange(0, value@.len() as int) =~= fs[i as int].1);
            if i > 0 {
                assert(r@ =~= before + seq!['&'] + field_text(fs[i as int]));
            } else {
                assert(r@ =~= field_text(fs[i as int]));
            }
        }
        i = i + 1;
    }
    assert(fs.subrange(0, n as int) =~= fs);
    r
}

/// The request target of a query-style call of the declaration `name` with
/// the given fields.
pub fn query_target_of(name: &str, fields: &Vec<Field>) -> (r: String)
    ensures
        r@ == query_target(name@, fields_view(fields@)),
{
    let mut r = String::new();
    push_char(&mut r, '/');
    push_text(&mut r, name);
    if fields.len() > 0 {
        push_char(&mut r, '?');
        let q = query_string(fields);
        push_text(&mut r, q.as_str());
    }
    r
}

fn find_char(cs: &Vec<char>, c: char) -> (r: Option<usize>)
    ensures
        match index_of(cs@, c, 0) {
            Some(k) => r == Some(k as usize) && 0 <= k < cs@.len(),
            None => r is None,
        },
{
    let n = cs.len();
    let mut i: usize = 0;
    while i < n
        invariant
            n == cs@.len(),
            i <= n,
            index_of(cs@, c, 0) == index_of(cs@, c, i as int),
        decreases n - i,
    {
        if cs[i] == c {
            return Some(i);
        }
        i = i + 1;
    }
    None
}

fn slice_chars(cs: &Vec<char>, from: usize, to: usize) -> (r: Vec<char>)
    requires
        from <= to <= cs@.len(),
    ensures
        r@ == cs@.subrange(from as int, to as int),
{
    let mut r: Vec<char> = Vec::new();
    let mut i: usize = from;
    while i < to
        invariant
            from <= i <= to <= cs@.len(),
            r@ == cs@.subrange(from as int, i as int),
        decreases to - i,
    {
        r.push(cs[i]);
        i = i + 1;
        assert(r@ =~= cs@.subrange(from as int, i as int));
    }
    r
}

fn parse_field_chars(t: &Vec<char>) -> (r: Option<Field>)
    ensures
        match parse_field(t@) {
            Some(f) => r is Some && r->0@ == f,
            None => r is None,
        },
{
    let n = t.len();
    match find_char(t, '=') {
        None => None,
        Some(k) => {
            let name = unescape_range(t, 0, k);
            let value = unescape_range(t, k + 1, n);
            match (name, value) {
                (Some(name), Some(value)) => Some(Field { name, value }),
                _ => None,
            }
        },
    }
}

fn parse_chars(t: &Vec<char>) -> (r: Option<Vec<Field>>)
    ensures
        match parse_query(t@) {
            Some(fs) => r is Some && fields_view(r->0@) == fs,
            None => r is None,
        },
    decreases t@.len(),
{
    if t.len() == 0 {
        let v: Vec<Field> = Vec::new();
        assert(fields_view(v@) =~= Seq::<FieldModel>::empty());
        return Some(v);
    }
    match find_char(t, '&') {
        None => match parse_field_chars(t) {
            Some(f) => {
                let v = vec![f];
                assert(fields_view(v@) =~= seq![f@]);
                Some(v)
            },
            None => None,
        },
        Some(k) => {
            let head = slice_chars(t, 0, k);
            let tail = slice_chars(t, k + 1, t.len());
            match parse_field_chars(&head) {
                None => None,
                Some(f) => match parse_chars(&tail) {
                    None => None,
                    Some(mut rest) => {
                        let ghost fv = f@;
                        let ghost rv = fields_view(rest@);
                        rest.insert(0, f);
                        assert(fields_view(rest@) =~= seq![fv] + rv);
                        Some(rest)
                    },
                },
            }
        },
    }
}

/// The fields that the query string `q` spells, in order, or `None` where
/// it is not well formed.
pub fn parse_query_string(q: &str) -> (r: Option<Vec<Field>>)
    ensures
        match parse_query(q@) {
            Some(fs) => r is Some && fields_view(r->0@) == fs,
            None => r is None,
        },
{
    let cs = chars_of(q);
    parse_chars(&cs)
}

fn lookup_value(fields: &Vec<Field>, name: &str) -> (r: Option<String>)
    ensures
        opt_text(r) == lookup(fields_view(fields@), name@),
{
    let ghost fs = fields_view(fields@);
    let n = fields.len();
    let mut i: usize = 0;
    assert(fs.subrange(0, n as int) =~= fs);
    while i < n
        invariant
            fs == fields_view(fields@),
            n == fs.len(),
            i <= n,
            lookup(fs, name@) == lookup(fs.subrange(i as int, n as int), name@),
        decreases n - i,
    {
        let ghost rest = fs.subrange(i as int, n as int);
        assert(rest.drop_first() =~= fs.subrange(i + 1, n as int));
        assert(rest[0] == fields@[i as int]@);
        if crate::text::same_text(fields[i].name.as_str(), name) {
            return Some(text_of(fields[i].value.as_str()));
        }
        i = i + 1;
    }
    None
}

/// The values of the fields named by `names`, in that order: for each name
/// the value of the first field with that name. `None` where one is missing.
pub fn field_values(fields: &Vec<Field>, names: &Vec<String>) -> (r: Option<Vec<String>>)
    ensures
        match lookup_all(fields_view(fields@), names@.map_values(|s: String| s@)) {
            Some(vs) => r is Some && r->0@.map_values(|s: String| s@) == vs,
            None => r is None,
        },
{
    let ghost fs = fields_view(fields@);
    let ghost ns = names@.map_values(|s: String| s@);
    let n = names.len();
    let mut out: Vec<String> = Vec::new();
    let mut i: usize = 0;
    assert(ns.subrange(0, n as int) =~= ns);
    assert(out@.map_values(|s: String| s@) =~= Seq::<Seq<char>>::empty());
    proof {
        match lookup_all(fs, ns) {
            Some(x) => {
                assert(Seq::<Seq<char>>::empty() + x =~= x);
            },
            None => {},
        }
    }
    while i < n
        invariant
            fs == fields_view(fields@),
            ns == names@.map_values(|s: String| s@),
            n == ns.len(),
            i <= n,
            lookup_all(fs, ns) == match lookup_all(fs, ns.subrange(i as int, n as int)) {
                Some(x) => Some(out@.map_values(|s: String| s@) + x),
                None => None,
            },
        decreases n - i,
    {
        let ghost rest = ns.subrange(i as int, n as int);
        assert(rest.drop_first() =~= ns.subrange(i + 1, n as int));
        match lookup_value(fields, names[i].as_str()) {
            None => {
                return None;
            },
            Some(v) => {
                let ghost before = out@.map_values(|s: String| s@);
                out.push(v);
                proof {
                    match lookup_all(fs, ns.subrange(i + 1, n as int)) {
                        Some(x) => {
                            assert(out@.map_values(|s: String| s@) =~= before.push(v@));
                            assert(before + (seq![v@] + x) =~= before.push(v@) + x);
                        },
                        None => {},
                    }
                }
            },
        }
        i = i + 1;
    }
    assert(ns.subrange(n as int, n as int) =~= Seq::<Seq<char>>::empty());
    assert(out@.map_values(|s: String| s@) + Seq::<Seq<char>>::empty() =~= out@.map_values(|s: String| s@));
    Some(out)
}

} // verus!

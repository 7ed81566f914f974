//! The cache document codec: an entity collection is serialized to a
//! length-prefixed text document and read back.  Decoding an encoded
//! collection yields the collection unchanged; a document that no
//! encoding produces is rejected as malformed.
//!
//! Wire shape: a natural number is its decimal digits followed by `:`;
//! a string is its length followed by its characters; a list is its
//! element count followed by the encoded elements; an entity is its
//! title, its tags, and its sections, each section a title and a
//! reference.
use vstd::prelude::*;
use vstd::string::StringExecFns;

use crate::item::{items_model, sections_model, Item, ItemModel, Section, SectionModel};
use crate::text::{chars_to_string, str_to_chars};

verus! {

/// Why a cache document was rejected.
#[derive(Debug)]
pub enum CacheDecodeError {
    /// The document is not an encoding of any entity collection.
    Malformed,
}

pub open spec fn is_digit_char(c: char) -> bool {
    c == '0' || c == '1' || c == '2' || c == '3' || c == '4' || c == '5' || c == '6' || c == '7'
        || c == '8' || c == '9'
}

pub open spec fn digit_char(d: nat) -> char {
    if d == 0 {
        '0'
    } else if d == 1 {
        '1'
    } else if d == 2 {
        '2'
    } else if d == 3 {
        '3'
    } else if d == 4 {
        '4'
    } else if d == 5 {
        '5'
    } else if d == 6 {
        '6'
    } else if d == 7 {
        '7'
    } else if d == 8 {
        '8'
    } else {
        '9'
    }
}

pub open spec fn digit_val(c: char) -> nat {
    if c == '0' {
        0
    } else if c == '1' {
        1
    } else if c == '2' {
        2
    } else if c == '3' {
        3
    } else if c == '4' {
        4
    } else if c == '5' {
        5
    } else if c == '6' {
        6
    } else if c == '7' {
        7
    } else if c == '8' {
        8
    } else {
        9
    }
}

/// The decimal digits of `n`, most significant first.
pub open spec fn dec_digits(n: nat) -> Seq<char>
    decreases n,
{
    if n < 10 {
        seq![digit_char(n)]
    } else {
        dec_digits(n / 10).push(digit_char(n % 10))
    }
}

/// A natural number on the wire: its digits and a terminator.
pub open spec fn enc_nat(n: nat) -> Seq<char> {
    dec_digits(n) + seq![':']
}

/// A string on the wire: its length, then its characters.
pub open spec fn enc_str(s: Seq<char>) -> Seq<char> {
    enc_nat(s.len()) + s
}

/// A list body on the wire: the encoded elements, in order.
pub open spec fn enc_list<T>(elems: Seq<T>, f: spec_fn(T) -> Seq<char>) -> Seq<char>
    decreases elems.len(),
{
    if elems.len() == 0 {
        Seq::empty()
    } else {
        f(elems.first()) + enc_list(elems.drop_first(), f)
    }
}

pub open spec fn enc_str_fn() -> spec_fn(Seq<char>) -> Seq<char> {
    |s: Seq<char>| enc_str(s)
}

/// A section on the wire: its title, then its reference.
pub open spec fn enc_section(s: SectionModel) -> Seq<char> {
    enc_str(s.title) + enc_str(s.reference)
}

pub open spec fn enc_section_fn() -> spec_fn(SectionModel) -> Seq<char> {
    |s: SectionModel| enc_section(s)
}

/// An entity on the wire: title, tag count, tags, section count,
/// sections.
pub open spec fn enc_item(it: ItemModel) -> Seq<char> {
    enc_str(it.title) + enc_nat(it.tags.len()) + enc_list(it.tags, enc_str_fn()) + enc_nat(
        it.sections.len(),
    ) + enc_list(it.sections, enc_section_fn())
}

pub open spec fn enc_item_fn() -> spec_fn(ItemModel) -> Seq<char> {
    |it: ItemModel| enc_item(it)
}

/// The whole cache document: the entity count, then the entities.
pub open spec fn enc_cache(items: Seq<ItemModel>) -> Seq<char> {
    enc_nat(items.len()) + enc_list(items, enc_item_fn())
}

/// Digit-by-digit accumulation: the value of digits `D` appended to an
/// already accumulated value.
pub open spec fn digits_fold(acc: nat, ds: Seq<char>) -> nat
    decreases ds.len(),
{
    if ds.len() == 0 {
        acc
    } else {
        digits_fold(acc * 10 + digit_val(ds.first()), ds.drop_first())
    }
}

/// Reads digits and a `:` terminator from the front of `v`; `acc` is the
/// value of digits already consumed and `seen` whether any digit was.
pub open spec fn dec_nat_rec(v: Seq<char>, acc: nat, seen: bool) -> Option<(nat, Seq<char>)>
    decreases v.len(),
{
    if v.len() == 0 {
        None
    } else if is_digit_char(v.first()) {
        dec_nat_rec(v.drop_first(), acc * 10 + digit_val(v.first()), true)
    } else if v.first() == ':' && seen {
        Some((acc, v.drop_first()))
    } else {
        None
    }
}

/// Reads a natural number from the front of `v`.
pub open spec fn dec_nat(v: Seq<char>) -> Option<(nat, Seq<char>)> {
    dec_nat_rec(v, 0, false)
}

/// Reads a string from the front of `v`.
pub open spec fn dec_str(v: Seq<char>) -> Option<(Seq<char>, Seq<char>)> {
    match dec_nat(v) {
        None => None,
        Some((n, rest)) => if rest.len() >= n {
            Some((rest.take(n as int), rest.skip(n as int)))
        } else {
            None
        },
    }
}

pub open spec fn dec_str_fn() -> spec_fn(Seq<char>) -> Option<(Seq<char>, Seq<char>)> {
    |v: Seq<char>| dec_str(v)
}

/// Reads `count` elements from the front of `v` with element reader `f`.
pub open spec fn dec_list<T>(
    v: Seq<char>,
    count: nat,
    f: spec_fn(Seq<char>) -> Option<(T, Seq<char>)>,
) -> Option<(Seq<T>, Seq<char>)>
    decreases count,
{
    if count == 0 {
        Some((Seq::empty(), v))
    } else {
        match f(v) {
            None => None,
            Some((x, rest)) => match dec_list(rest, (count - 1) as nat, f) {
                None => None,
                Some((xs, rest2)) => Some((seq![x] + xs, rest2)),
            },
        }
    }
}

/// Reads a section from the front of `v`.
pub open spec fn dec_section(v: Seq<char>) -> Option<(SectionModel, Seq<char>)> {
    match dec_str(v) {
        None => None,
        Some((title, rest)) => match dec_str(rest) {
            None => None,
            Some((reference, rest2)) => Some((SectionModel { title, reference }, rest2)),
        },
    }
}

pub open spec fn dec_section_fn() -> spec_fn(Seq<char>) -> Option<(SectionModel, Seq<char>)> {
    |v: Seq<char>| dec_section(v)
}

/// Reads an entity from the front of `v`.
pub open spec fn dec_item(v: Seq<char>) -> Option<(ItemModel, Seq<char>)> {
    match dec_str(v) {
        None => None,
        Some((title, r1)) => match dec_nat(r1) {
            None => None,
            Some((tag_count, r2)) => match dec_list(r2, tag_count, dec_str_fn()) {
                None => None,
                Some((tags, r3)) => match dec_nat(r3) {
                    None => None,
                    Some((section_count, r4)) => match dec_list(r4, section_count, dec_section_fn()) {
                        None => None,
                        Some((sections, r5)) => Some((ItemModel { title, tags, sections }, r5)),
                    },
                },
            },
        },
    }
}

pub open spec fn dec_item_fn() -> spec_fn(Seq<char>) -> Option<(ItemModel, Seq<char>)> {
    |v: Seq<char>| dec_item(v)
}

/// Reads a whole cache document: the collection, with nothing left over.
pub open spec fn dec_cache(v: Seq<char>) -> Option<Seq<ItemModel>> {
    match dec_nat(v) {
        None => None,
        Some((count, rest)) => match dec_list(rest, count, dec_item_fn()) {
            None => None,
            Some((items, rest2)) => if rest2.len() == 0 {
                Some(items)
            } else {
                None
            },
        },
    }
}

proof fn lemma_dec_digits_all_digits(n: nat)
    ensures
        dec_digits(n).len() >= 1,
        forall|i: int| 0 <= i < dec_digits(n).len() ==> is_digit_char(#[trigger] dec_digits(n)[i]),
    decreases n,
{
    if n < 10 {
    } else {
        lemma_dec_digits_all_digits(n / 10);
    }
}

proof fn lemma_digits_fold_push(acc: nat, ds: Seq<char>, d: char)
    ensures
        digits_fold(acc, ds.push(d)) == digits_fold(acc, ds) * 10 + digit_val(d),
    decreases ds.len(),
{
    if ds.len() == 0 {
        assert(ds.push(d).first() == d);
        assert(ds.push(d).drop_first() =~= Seq::<char>::empty());
        assert(digits_fold(acc, ds.push(d)) == digits_fold(acc * 10 + digit_val(d), Seq::empty()));
    } else {
        assert(ds.push(d).first() == ds.first());
        assert(ds.push(d).drop_first() =~= ds.drop_first().push(d));
        lemma_digits_fold_push(acc * 10 + digit_val(ds.first()), ds.drop_first(), d);
        assert(digits_fold(acc, ds.push(d)) == digits_fold(
            acc * 10 + digit_val(ds.first()),
            ds.drop_first().push(d),
        ));
        assert(digits_fold(acc, ds) == digits_fold(acc * 10 + digit_val(ds.first()), ds.drop_first()));
    }
}

proof fn lemma_digit_round_trip(d: nat)
    requires
        d < 10,
    ensures
        digit_val(digit_char(d)) == d,
{
}

proof fn lemma_digits_fold_dec_digits(n: nat)
    ensures
        digits_fold(0, dec_digits(n)) == n,
    decreases n,
{
    if n < 10 {
        lemma_digit_round_trip(n);
        assert(dec_digits(n) == seq![digit_char(n)]);
        assert(seq![digit_char(n)].first() == digit_char(n));
        assert(seq![digit_char(n)].drop_first() =~= Seq::<char>::empty());
        assert(digits_fold(0, dec_digits(n)) == digits_fold(digit_val(digit_char(n)), Seq::empty()));
    } else {
        assert(dec_digits(n) == dec_digits(n / 10).push(digit_char(n % 10)));
        lemma_digits_fold_dec_digits(n / 10);
        lemma_digits_fold_push(0, dec_digits(n / 10), digit_char(n % 10));
        lemma_digit_round_trip(n % 10);
        assert(digits_fold(0, dec_digits(n)) == (n / 10) * 10 + n % 10);
        vstd::arithmetic::div_mod::lemma_fundamental_div_mod(n as int, 10);
    }
}

proof fn lemma_dec_nat_rec_digits(ds: Seq<char>, rest: Seq<char>, acc: nat, seen: bool)
    requires
        forall|i: int| 0 <= i < ds.len() ==> is_digit_char(#[trigger] ds[i]),
        ds.len() == 0 ==> seen,
    ensures
        dec_nat_rec(ds + seq![':'] + rest, acc, seen) == Some((digits_fold(acc, ds), rest)),
    decreases ds.len(),
{
    let v = ds + seq![':'] + rest;
    if ds.len() == 0 {
        assert(v.first() == ':');
        assert(!is_digit_char(':'));
        assert(v.drop_first() =~= rest);
    } else {
        assert(v.first() == ds.first());
        assert(v.drop_first() =~= ds.drop_first() + seq![':'] + rest);
        lemma_dec_nat_rec_digits(ds.drop_first(), rest, acc * 10 + digit_val(ds.first()), true);
    }
}

/// Reading a number back from its encoding yields the number.
proof fn lemma_dec_nat_inverse(n: nat, rest: Seq<char>)
    ensures
        dec_nat(enc_nat(n) + rest) == Some((n, rest)),
{
    lemma_dec_digits_all_digits(n);
    assert(enc_nat(n) + rest =~= dec_digits(n) + seq![':'] + rest);
    lemma_dec_nat_rec_digits(dec_digits(n), rest, 0, false);
    lemma_digits_fold_dec_digits(n);
}

/// Reading a string back from its encoding yields the string.
proof fn lemma_dec_str_inverse(s: Seq<char>, rest: Seq<char>)
    ensures
        dec_str(enc_str(s) + rest) == Some((s, rest)),
{
    assert(enc_str(s) + rest =~= enc_nat(s.len()) + (s + rest));
    lemma_dec_nat_inverse(s.len(), s + rest);
    assert((s + rest).take(s.len() as int) =~= s);
    assert((s + rest).skip(s.len() as int) =~= rest);
}

/// Reading a section back from its encoding yields the section.
proof fn lemma_dec_section_inverse(s: SectionModel, rest: Seq<char>)
    ensures
        dec_section(enc_section(s) + rest) == Some((s, rest)),
{
    assert(enc_section(s) + rest =~= enc_str(s.title) + (enc_str(s.reference) + rest));
    lemma_dec_str_inverse(s.title, enc_str(s.reference) + rest);
    lemma_dec_str_inverse(s.reference, rest);
}

/// Reading a list back from the encoding of its elements yields the
/// elements, given that the element reader inverts the element encoder.
proof fn lemma_dec_list_inverse<T>(
    elems: Seq<T>,
    rest: Seq<char>,
    g: spec_fn(T) -> Seq<char>,
    f: spec_fn(Seq<char>) -> Option<(T, Seq<char>)>,
)
    requires
        forall|i: int, tail: Seq<char>|
            0 <= i < elems.len() ==> f(#[trigger] g(elems[i]).add(tail)) == Some((elems[i], tail)),
    ensures
        dec_list(enc_list(elems, g) + rest, elems.len(), f) == Some((elems, rest)),
    decreases elems.len(),
{
    if elems.len() == 0 {
        assert(enc_list(elems, g) + rest =~= rest);
        assert(dec_list(rest, 0, f) == Some((Seq::<T>::empty(), rest)));
        assert(elems =~= Seq::<T>::empty());
    } else {
        let tail = enc_list(elems.drop_first(), g) + rest;
        assert(enc_list(elems, g) + rest =~= g(elems[0]).add(tail));
        assert(f(g(elems[0]).add(tail)) == Some((elems[0], tail)));
        assert forall|i: int, t2: Seq<char>| 0 <= i < elems.drop_first().len() implies f(
            #[trigger] g(elems.drop_first()[i]).add(t2),
        ) == Some((elems.drop_first()[i], t2)) by {
            assert(elems.drop_first()[i] == elems[i + 1]);
        }
        lemma_dec_list_inverse(elems.drop_first(), rest, g, f);
        assert(seq![elems[0]] + elems.drop_first() =~= elems);
    }
}

/// Reading an entity back from its encoding yields the entity.
proof fn lemma_dec_item_inverse(it: ItemModel, rest: Seq<char>)
    ensures
        dec_item(enc_item(it) + rest) == Some((it, rest)),
{
    let tags_part = enc_nat(it.tags.len()) + enc_list(it.tags, enc_str_fn()) + enc_nat(
        it.sections.len(),
    ) + enc_list(it.sections, enc_section_fn()) + rest;
    assert(enc_item(it) + rest =~= enc_str(it.title) + tags_part);
    lemma_dec_str_inverse(it.title, tags_part);
    let tags_body = enc_list(it.tags, enc_str_fn()) + enc_nat(it.sections.len()) + enc_list(
        it.sections,
        enc_section_fn(),
    ) + rest;
    assert(tags_part =~= enc_nat(it.tags.len()) + tags_body);
    lemma_dec_nat_inverse(it.tags.len(), tags_body);
    let sections_part = enc_nat(it.sections.len()) + enc_list(it.sections, enc_section_fn())
        + rest;
    assert(tags_body =~= enc_list(it.tags, enc_str_fn()) + sections_part);
    assert forall|i: int, tail: Seq<char>| 0 <= i < it.tags.len() implies enc_str_fn()(
        it.tags[i],
    ).add(tail) == enc_str(it.tags[i]) + tail && dec_str_fn()(
        #[trigger] enc_str_fn()(it.tags[i]).add(tail),
    ) == Some((it.tags[i], tail)) by {
        lemma_dec_str_inverse(it.tags[i], tail);
    }
    lemma_dec_list_inverse(it.tags, sections_part, enc_str_fn(), dec_str_fn());
    let sections_body = enc_list(it.sections, enc_section_fn()) + rest;
    assert(sections_part =~= enc_nat(it.sections.len()) + sections_body);
    lemma_dec_nat_inverse(it.sections.len(), sections_body);
    assert forall|i: int, tail: Seq<char>| 0 <= i < it.sections.len() implies dec_section_fn()(
        #[trigger] enc_section_fn()(it.sections[i]).add(tail),
    ) == Some((it.sections[i], tail)) by {
        lemma_dec_section_inverse(it.sections[i], tail);
    }
    lemma_dec_list_inverse(it.sections, rest, enc_section_fn(), dec_section_fn());
}

proof fn lemma_dec_nat_rec_progress(v: Seq<char>, acc: nat, seen: bool)
    ensures
        dec_nat_rec(v, acc, seen) matches Some((n, rest)) ==> rest.len() < v.len() && n >= acc,
    decreases v.len(),
{
    if v.len() == 0 {
    } else if is_digit_char(v.first()) {
        lemma_dec_nat_rec_progress(v.drop_first(), acc * 10 + digit_val(v.first()), true);
    }
}

proof fn lemma_dec_str_progress(v: Seq<char>)
    ensures
        dec_str(v) matches Some((s, rest)) ==> rest.len() < v.len(),
{
    lemma_dec_nat_rec_progress(v, 0, false);
}

proof fn lemma_dec_section_progress(v: Seq<char>)
    ensures
        dec_section(v) matches Some((s, rest)) ==> rest.len() < v.len(),
{
    lemma_dec_str_progress(v);
    match dec_str(v) {
        Some((title, r1)) => lemma_dec_str_progress(r1),
        None => (),
    }
}

proof fn lemma_dec_list_progress<T>(
    v: Seq<char>,
    count: nat,
    f: spec_fn(Seq<char>) -> Option<(T, Seq<char>)>,
)
    requires
        forall|v2: Seq<char>| #[trigger] f(v2) matches Some((x, r)) ==> r.len() < v2.len(),
    ensures
        dec_list(v, count, f) matches Some((xs, rest)) ==> rest.len() + count <= v.len(),
    decreases count,
{
    if count == 0 {
    } else {
        match f(v) {
            Some((x, r)) => lemma_dec_list_progress(r, (count - 1) as nat, f),
            None => (),
        }
    }
}

proof fn lemma_dec_item_progress(v: Seq<char>)
    ensures
        dec_item(v) matches Some((it, rest)) ==> rest.len() < v.len(),
{
    lemma_dec_str_progress(v);
    assert forall|v2: Seq<char>|
        #[trigger] dec_str_fn()(v2) matches Some((x, rr)) ==> rr.len() < v2.len() by {
        lemma_dec_str_progress(v2);
    }
    assert forall|v2: Seq<char>|
        #[trigger] dec_section_fn()(v2) matches Some((x, rr)) ==> rr.len() < v2.len() by {
        lemma_dec_section_progress(v2);
    }
    match dec_str(v) {
        Some((title, r1)) => {
            lemma_dec_nat_rec_progress(r1, 0, false);
            match dec_nat(r1) {
                Some((tc, r2)) => {
                    lemma_dec_list_progress(r2, tc, dec_str_fn());
                    match dec_list(r2, tc, dec_str_fn()) {
                        Some((tags, r3)) => {
                            lemma_dec_nat_rec_progress(r3, 0, false);
                            match dec_nat(r3) {
                                Some((sc, r4)) => {
                                    lemma_dec_list_progress(r4, sc, dec_section_fn());
                                },
                                None => (),
                            }
                        },
                        None => (),
                    }
                },
                None => (),
            }
        },
        None => (),
    }
}

/// Cache round-trip: reading a cache document back from the encoding of
/// an entity collection yields exactly that collection, empty or not.
pub proof fn lemma_cache_round_trip(items: Seq<ItemModel>)
    ensures
        dec_cache(enc_cache(items)) == Some(items),
{
    let body = enc_list(items, enc_item_fn());
    assert(enc_cache(items) =~= enc_nat(items.len()) + body);
    lemma_dec_nat_inverse(items.len(), body);
    assert forall|i: int, tail: Seq<char>| 0 <= i < items.len() implies dec_item_fn()(
        #[trigger] enc_item_fn()(items[i]).add(tail),
    ) == Some((items[i], tail)) by {
        lemma_dec_item_inverse(items[i], tail);
    }
    assert(body =~= enc_list(items, enc_item_fn()) + Seq::<char>::empty());
    lemma_dec_list_inverse(items, Seq::empty(), enc_item_fn(), dec_item_fn());
}

proof fn lemma_enc_list_push<T>(elems: Seq<T>, f: spec_fn(T) -> Seq<char>, x: T)
    ensures
        enc_list(elems.push(x), f) == enc_list(elems, f) + f(x),
    decreases elems.len(),
{
    if elems.len() == 0 {
        assert(elems.push(x).first() == x);
        assert(elems.push(x).drop_first() =~= Seq::<T>::empty());
        assert(enc_list(Seq::<T>::empty(), f) == Seq::<char>::empty());
        assert(enc_list(elems.push(x), f) == f(x) + enc_list(Seq::<T>::empty(), f));
        assert(elems =~= Seq::<T>::empty());
        assert(enc_list(elems.push(x), f) =~= enc_list(elems, f) + f(x));
    } else {
        assert(elems.push(x).first() == elems.first());
        assert(elems.push(x).drop_first() =~= elems.drop_first().push(x));
        lemma_enc_list_push(elems.drop_first(), f, x);
        assert(enc_list(elems.push(x), f) == f(elems.first()) + enc_list(
            elems.drop_first().push(x),
            f,
        ));
        assert(enc_list(elems.push(x), f) =~= enc_list(elems, f) + f(x));
    }
}

fn digit_str(d: usize) -> (r: &'static str)
    requires
        d < 10,
    ensures
        r@ == seq![digit_char(d as nat)],
{
    proof {
        reveal_strlit("0");
        reveal_strlit("1");
        reveal_strlit("2");
        reveal_strlit("3");
        reveal_strlit("4");
        reveal_strlit("5");
        reveal_strlit("6");
        reveal_strlit("7");
        reveal_strlit("8");
        reveal_strlit("9");
    }
    let r = if d == 0 {
        "0"
    } else if d == 1 {
        "1"
    } else if d == 2 {
        "2"
    } else if d == 3 {
        "3"
    } else if d == 4 {
        "4"
    } else if d == 5 {
        "5"
    } else if d == 6 {
        "6"
    } else if d == 7 {
        "7"
    } else if d == 8 {
        "8"
    } else {
        "9"
    };
    proof {
        assert(r@ =~= seq![digit_char(d as nat)]);
    }
    r
}

/// Appends the decimal digits of `n`.
fn push_nat_digits(out: &mut String, n: usize)
    ensures
        final(out)@ == old(out)@ + dec_digits(n as nat),
    decreases n,
{
    if n >= 10 {
        push_nat_digits(out, n / 10);
        out.append(digit_str(n % 10));
        proof {
            assert(dec_digits(n as nat) == dec_digits(n as nat / 10).push(
                digit_char(n as nat % 10),
            ));
            assert(out@ =~= old(out)@ + dec_digits(n as nat));
        }
    } else {
        out.append(digit_str(n));
        proof {
            assert(out@ =~= old(out)@ + dec_digits(n as nat));
        }
    }
}

/// Appends a number and its terminator.
fn push_enc_nat(out: &mut String, n: usize)
    ensures
        final(out)@ == old(out)@ + enc_nat(n as nat),
{
    push_nat_digits(out, n);
    out.append(":");
    proof {
        reveal_strlit(":");
        assert(":"@ =~= seq![':']);
        assert(out@ =~= old(out)@ + enc_nat(n as nat));
    }
}

/// Appends an encoded string.
fn push_enc_str(out: &mut String, s: &String)
    ensures
        final(out)@ == old(out)@ + enc_str(s@),
{
    let cs = str_to_chars(s.as_str());
    push_enc_nat(out, cs.len());
    out.append(s.as_str());
    proof {
        assert(out@ =~= old(out)@ + enc_str(s@));
    }
}

/// Appends an encoded section.
fn push_enc_section(out: &mut String, s: &Section)
    ensures
        final(out)@ == old(out)@ + enc_section(s@),
{
    push_enc_str(out, &s.title);
    push_enc_str(out, &s.reference);
    proof {
        assert(out@ =~= old(out)@ + enc_section(s@));
    }
}

/// Appends a string list: count, then elements.
fn push_enc_strs(out: &mut String, v: &Vec<String>)
    ensures
        final(out)@ == old(out)@ + enc_nat(v@.len() as nat) + enc_list(v.deep_view(), enc_str_fn()),
{
    push_enc_nat(out, v.len());
    let ghost base = out@;
    for i in 0..v.len()
        invariant
            out@ =~= base + enc_list(v.deep_view().take(i as int), enc_str_fn()),
            base == old(out)@ + enc_nat(v@.len() as nat),
    {
        push_enc_str(out, &v[i]);
        proof {
            assert(v.deep_view().take(i + 1) =~= v.deep_view().take(i as int).push(v@[i as int]@));
            lemma_enc_list_push(v.deep_view().take(i as int), enc_str_fn(), v@[i as int]@);
            assert(out@ =~= base + enc_list(v.deep_view().take(i + 1), enc_str_fn()));
        }
    }
    proof {
        assert(v.deep_view().take(v@.len() as int) =~= v.deep_view());
        assert(out@ =~= old(out)@ + enc_nat(v@.len() as nat) + enc_list(
            v.deep_view(),
            enc_str_fn(),
        ));
    }
}

/// Appends a section list: count, then elements.
fn push_enc_sections(out: &mut String, v: &Vec<Section>)
    ensures
        final(out)@ == old(out)@ + enc_nat(v@.len() as nat) + enc_list(
            sections_model(v@),
            enc_section_fn(),
        ),
{
    push_enc_nat(out, v.len());
    let ghost base = out@;
    for i in 0..v.len()
        invariant
            out@ =~= base + enc_list(sections_model(v@).take(i as int), enc_section_fn()),
            base == old(out)@ + enc_nat(v@.len() as nat),
    {
        push_enc_section(out, &v[i]);
        proof {
            assert(sections_model(v@).take(i + 1) =~= sections_model(v@).take(i as int).push(
                v@[i as int]@,
            ));
            lemma_enc_list_push(sections_model(v@).take(i as int), enc_section_fn(), v@[i as int]@);
            assert(out@ =~= base + enc_list(sections_model(v@).take(i + 1), enc_section_fn()));
        }
    }
    proof {
        assert(sections_model(v@).take(v@.len() as int) =~= sections_model(v@));
        assert(out@ =~= old(out)@ + enc_nat(v@.len() as nat) + enc_list(
            sections_model(v@),
            enc_section_fn(),
        ));
    }
}

/// Appends an encoded entity.
fn push_enc_item(out: &mut String, it: &Item)
    ensures
        final(out)@ == old(out)@ + enc_item(it@),
{
    push_enc_str(out, &it.title);
    push_enc_strs(out, &it.tags);
    push_enc_sections(out, &it.sections);
    proof {
        assert(it@.tags == it.tags.deep_view());
        assert(it@.sections =~= sections_model(it.sections@));
        assert(out@ =~= old(out)@ + enc_item(it@));
    }
}

/// Encodes an entity collection as a cache document.
pub fn encode_items(items: &Vec<Item>) -> (r: String)
    ensures
        r@ == enc_cache(items_model(items@)),
{
    let mut out = String::new();
    push_enc_nat(&mut out, items.len());
    let ghost base = out@;
    for i in 0..items.len()
        invariant
            out@ =~= base + enc_list(items_model(items@).take(i as int), enc_item_fn()),
            base == enc_nat(items@.len() as nat),
    {
        push_enc_item(&mut out, &items[i]);
        proof {
            assert(items_model(items@).take(i + 1) =~= items_model(items@).take(i as int).push(
                items@[i as int]@,
            ));
            lemma_enc_list_push(items_model(items@).take(i as int), enc_item_fn(), items@[i as int]@);
            assert(out@ =~= base + enc_list(items_model(items@).take(i + 1), enc_item_fn()));
        }
    }
    proof {
        assert(items_model(items@).take(items@.len() as int) =~= items_model(items@));
        assert(out@ =~= enc_cache(items_model(items@)));
    }
    out
}

fn char_is_digit(c: char) -> (b: bool)
    ensures
        b == is_digit_char(c),
{
    c == '0' || c == '1' || c == '2' || c == '3' || c == '4' || c == '5' || c == '6' || c == '7'
        || c == '8' || c == '9'
}

fn char_digit_val(c: char) -> (r: usize)
    requires
        is_digit_char(c),
    ensures
        r == digit_val(c),
        r < 10,
{
    if c == '0' {
        0
    } else if c == '1' {
        1
    } else if c == '2' {
        2
    } else if c == '3' {
        3
    } else if c == '4' {
        4
    } else if c == '5' {
        5
    } else if c == '6' {
        6
    } else if c == '7' {
        7
    } else if c == '8' {
        8
    } else {
        9
    }
}

fn is_digit_at(v: &Vec<char>, i: usize) -> (b: bool)
    requires
        i < v@.len(),
    ensures
        b == is_digit_char(v@[i as int]),
{
    char_is_digit(v[i])
}

/// Copies `v[a..b]` into a new vector.
fn subvec(v: &Vec<char>, a: usize, b: usize) -> (r: Vec<char>)
    requires
        a <= b <= v@.len(),
    ensures
        r@ == v@.subrange(a as int, b as int),
{
    let mut r: Vec<char> = Vec::new();
    for i in a..b
        invariant
            a <= i <= b <= v@.len(),
            r@ =~= v@.subrange(a as int, i as int),
    {
        r.push(v[i]);
        proof {
            assert(v@.subrange(a as int, i + 1) =~= v@.subrange(a as int, i as int).push(
                v@[i as int],
            ));
        }
    }
    proof {
        assert(r@ =~= v@.subrange(a as int, b as int));
    }
    r
}

/// Reads a number: digits then `:`.  Fails when the front of the input
/// is not a number encoding, or the number does not fit in `usize`.
fn read_nat(v: &Vec<char>, pos: usize) -> (r: Result<(usize, usize), CacheDecodeError>)
    requires
        pos <= v@.len(),
    ensures
        match r {
            Ok((n, p)) => dec_nat(v@.skip(pos as int)) == Some((n as nat, v@.skip(p as int)))
                && pos <= p <= v@.len(),
            Err(_) => (dec_nat(v@.skip(pos as int)) matches Some((n, rest)) ==> n > usize::MAX),
        },
{
    let vlen = v.len();
    let mut cur = pos;
    let mut acc: usize = 0;
    let mut seen = false;
    while cur < vlen && is_digit_at(v, cur)
        invariant
            pos <= cur <= vlen,
            vlen == v@.len(),
            seen == (cur > pos),
            dec_nat_rec(v@.skip(pos as int), 0, false) == dec_nat_rec(
                v@.skip(cur as int),
                acc as nat,
                seen,
            ),
        decreases vlen - cur,
    {
        let c = v[cur];
        let d = char_digit_val(c);
        proof {
            assert(v@.skip(cur as int).first() == v@[cur as int]);
            assert(v@.skip(cur as int).drop_first() =~= v@.skip(cur + 1));
            lemma_dec_nat_rec_lower_bound(v@.skip(cur + 1), acc as nat * 10 + digit_val(c), true);
        }
        if acc > usize::MAX / 10 {
            proof {
                vstd::arithmetic::div_mod::lemma_fundamental_div_mod(usize::MAX as int, 10);
            }
            return Err(CacheDecodeError::Malformed);
        }
        let acc10 = acc * 10;
        if d > usize::MAX - acc10 {
            return Err(CacheDecodeError::Malformed);
        }
        acc = acc10 + d;
        seen = true;
        cur = cur + 1;
    }
    if cur < vlen && v[cur] == ':' && seen {
        proof {
            assert(v@.skip(cur as int).first() == v@[cur as int]);
            assert(v@.skip(cur as int).drop_first() =~= v@.skip(cur + 1));
        }
        Ok((acc, cur + 1))
    } else {
        proof {
            if cur < vlen {
                assert(v@.skip(cur as int).first() == v@[cur as int]);
            } else {
                assert(v@.skip(cur as int).len() == 0);
            }
        }
        Err(CacheDecodeError::Malformed)
    }
}

proof fn lemma_dec_nat_rec_lower_bound(v: Seq<char>, acc: nat, seen: bool)
    ensures
        dec_nat_rec(v, acc, seen) matches Some((n, rest)) ==> n >= acc,
    decreases v.len(),
{
    if v.len() == 0 {
    } else if is_digit_char(v.first()) {
        lemma_dec_nat_rec_lower_bound(v.drop_first(), acc * 10 + digit_val(v.first()), true);
    }
}

/// Reads a string: its length, then that many characters.
fn read_str(v: &Vec<char>, pos: usize) -> (r: Result<(String, usize), CacheDecodeError>)
    requires
        pos <= v@.len(),
    ensures
        match r {
            Ok((s, p)) => dec_str(v@.skip(pos as int)) == Some((s@, v@.skip(p as int))) && pos <= p
                <= v@.len(),
            Err(_) => dec_str(v@.skip(pos as int)) is None,
        },
{
    let vlen = v.len();
    match read_nat(v, pos) {
        Err(e) => {
            proof {
                lemma_dec_nat_rec_progress(v@.skip(pos as int), 0, false);
            }
            Err(e)
        },
        Ok((n, p1)) => {
            if n <= vlen - p1 {
                let s_chars = subvec(v, p1, p1 + n);
                let s = chars_to_string(&s_chars);
                proof {
                    assert(v@.skip(p1 as int).take(n as int) =~= v@.subrange(p1 as int, p1 + n));
                    assert(v@.skip(p1 as int).skip(n as int) =~= v@.skip(p1 + n));
                }
                Ok((s, p1 + n))
            } else {
                Err(CacheDecodeError::Malformed)
            }
        },
    }
}

/// Reads a section: title, then reference.
fn read_section(v: &Vec<char>, pos: usize) -> (r: Result<(Section, usize), CacheDecodeError>)
    requires
        pos <= v@.len(),
    ensures
        match r {
            Ok((s, p)) => dec_section(v@.skip(pos as int)) == Some((s@, v@.skip(p as int))) && pos
                <= p <= v@.len(),
            Err(_) => dec_section(v@.skip(pos as int)) is None,
        },
{
    let (title, p1) = match read_str(v, pos) {
        Ok(x) => x,
        Err(e) => {
            return Err(e);
        },
    };
    let (reference, p2) = match read_str(v, p1) {
        Ok(x) => x,
        Err(e) => {
            return Err(e);
        },
    };
    Ok((Section { title, reference }, p2))
}

/// Reads `count` strings.
fn read_strs(v: &Vec<char>, pos: usize, count: usize) -> (r: Result<
    (Vec<String>, usize),
    CacheDecodeError,
>)
    requires
        pos <= v@.len(),
    ensures
        match r {
            Ok((xs, p)) => dec_list(v@.skip(pos as int), count as nat, dec_str_fn()) == Some(
                (xs.deep_view(), v@.skip(p as int)),
            ) && pos <= p <= v@.len(),
            Err(_) => dec_list(v@.skip(pos as int), count as nat, dec_str_fn()) is None,
        },
    decreases count,
{
    if count == 0 {
        let xs: Vec<String> = Vec::new();
        proof {
            assert(xs.deep_view() =~= Seq::<Seq<char>>::empty());
        }
        return Ok((xs, pos));
    }
    let (s, p1) = match read_str(v, pos) {
        Ok(x) => x,
        Err(e) => {
            return Err(e);
        },
    };
    match read_strs(v, p1, count - 1) {
        Err(e) => Err(e),
        Ok((mut xs, p2)) => {
            let ghost tail_views = xs.deep_view();
            xs.insert(0, s);
            proof {
                assert(xs.deep_view() =~= seq![s@] + tail_views);
            }
            Ok((xs, p2))
        },
    }
}

/// Reads `count` sections.
fn read_sections(v: &Vec<char>, pos: usize, count: usize) -> (r: Result<
    (Vec<Section>, usize),
    CacheDecodeError,
>)
    requires
        pos <= v@.len(),
    ensures
        match r {
            Ok((xs, p)) => dec_list(v@.skip(pos as int), count as nat, dec_section_fn()) == Some(
                (sections_model(xs@), v@.skip(p as int)),
            ) && pos <= p <= v@.len(),
            Err(_) => dec_list(v@.skip(pos as int), count as nat, dec_section_fn()) is None,
        },
    decreases count,
{
    if count == 0 {
        let xs: Vec<Section> = Vec::new();
        proof {
            assert(sections_model(xs@) =~= Seq::<SectionModel>::empty());
        }
        return Ok((xs, pos));
    }
    let (s, p1) = match read_section(v, pos) {
        Ok(x) => x,
        Err(e) => {
            return Err(e);
        },
    };
    match read_sections(v, p1, count - 1) {
        Err(e) => Err(e),
        Ok((mut xs, p2)) => {
            let ghost tail_views = sections_model(xs@);
            xs.insert(0, s);
            proof {
                assert(sections_model(xs@) =~= seq![s@] + tail_views);
            }
            Ok((xs, p2))
        },
    }
}

/// Reads one entity.
fn read_item(v: &Vec<char>, pos: usize) -> (r: Result<(Item, usize), CacheDecodeError>)
    requires
        pos <= v@.len(),
    ensures
        match r {
            Ok((it, p)) => dec_item(v@.skip(pos as int)) == Some((it@, v@.skip(p as int))) && pos
                <= p <= v@.len(),
            Err(_) => dec_item(v@.skip(pos as int)) is None,
        },
{
    let vlen = v.len();
    let (title, p1) = match read_str(v, pos) {
        Ok(x) => x,
        Err(e) => {
            return Err(e);
        },
    };
    proof {
        assert forall|v2: Seq<char>|
            #[trigger] dec_str_fn()(v2) matches Some((x, rr)) ==> rr.len() < v2.len() by {
            lemma_dec_str_progress(v2);
        }
        assert forall|v2: Seq<char>|
            #[trigger] dec_section_fn()(v2) matches Some((x, rr)) ==> rr.len() < v2.len() by {
            lemma_dec_section_progress(v2);
        }
    }
    let (tag_count, p2) = match read_nat(v, p1) {
        Ok(x) => x,
        Err(e) => {
            proof {
                lemma_dec_nat_rec_progress(v@.skip(p1 as int), 0, false);
                match dec_nat(v@.skip(p1 as int)) {
                    Some((tc, r2)) => {
                        lemma_dec_list_progress(r2, tc, dec_str_fn());
                    },
                    None => (),
                }
            }
            return Err(e);
        },
    };
    let (tags, p3) = match read_strs(v, p2, tag_count) {
        Ok(x) => x,
        Err(e) => {
            return Err(e);
        },
    };
    let (section_count, p4) = match read_nat(v, p3) {
        Ok(x) => x,
        Err(e) => {
            proof {
                lemma_dec_nat_rec_progress(v@.skip(p3 as int), 0, false);
                match dec_nat(v@.skip(p3 as int)) {
                    Some((sc, r4)) => {
                        lemma_dec_list_progress(r4, sc, dec_section_fn());
                    },
                    None => (),
                }
            }
            return Err(e);
        },
    };
    let (sections, p5) = match read_sections(v, p4, section_count) {
        Ok(x) => x,
        Err(e) => {
            return Err(e);
        },
    };
    let it = Item { title, tags, sections };
    proof {
        assert(it@.sections =~= sections_model(sections@));
        assert(dec_item(v@.skip(pos as int)) == Some((it@, v@.skip(p5 as int))));
    }
    Ok((it, p5))
}

/// Reads `count` entities.
fn read_items(v: &Vec<char>, pos: usize, count: usize) -> (r: Result<
    (Vec<Item>, usize),
    CacheDecodeError,
>)
    requires
        pos <= v@.len(),
    ensures
        match r {
            Ok((xs, p)) => dec_list(v@.skip(pos as int), count as nat, dec_item_fn()) == Some(
                (items_model(xs@), v@.skip(p as int)),
            ) && pos <= p <= v@.len(),
            Err(_) => dec_list(v@.skip(pos as int), count as nat, dec_item_fn()) is None,
        },
    decreases count,
{
    if count == 0 {
        let xs: Vec<Item> = Vec::new();
        proof {
            assert(items_model(xs@) =~= Seq::<ItemModel>::empty());
        }
        return Ok((xs, pos));
    }
    let (it, p1) = match read_item(v, pos) {
        Ok(x) => x,
        Err(e) => {
            return Err(e);
        },
    };
    match read_items(v, p1, count - 1) {
        Err(e) => Err(e),
        Ok((mut xs, p2)) => {
            let ghost tail_views = items_model(xs@);
            xs.insert(0, it);
            proof {
                assert(items_model(xs@) =~= seq![it@] + tail_views);
            }
            Ok((xs, p2))
        },
    }
}

/// Decodes a cache document.  Succeeds exactly on documents that encode
/// an entity collection, and then yields that collection; anything else
/// is malformed.
pub fn decode_items(doc: &str) -> (r: Result<Vec<Item>, CacheDecodeError>)
    ensures
        match r {
            Ok(items) => dec_cache(doc@) == Some(items_model(items@)),
            Err(_) => dec_cache(doc@) is None,
        },
{
    let v = str_to_chars(doc);
    proof {
        assert(v@.skip(0) =~= doc@);
    }
    let vlen = v.len();
    proof {
        assert forall|v2: Seq<char>|
            #[trigger] dec_item_fn()(v2) matches Some((x, rr)) ==> rr.len() < v2.len() by {
            lemma_dec_item_progress(v2);
        }
    }
    let (count, p1) = match read_nat(&v, 0) {
        Ok(x) => x,
        Err(e) => {
            proof {
                lemma_dec_nat_rec_progress(doc@, 0, false);
                match dec_nat(doc@) {
                    Some((c, r1)) => {
                        lemma_dec_list_progress(r1, c, dec_item_fn());
                    },
                    None => (),
                }
            }
            return Err(e);
        },
    };
    match read_items(&v, p1, count) {
        Err(e) => Err(e),
        Ok((items, p2)) => {
            if p2 == vlen {
                proof {
                    assert(v@.skip(p2 as int).len() == 0);
                }
                Ok(items)
            } else {
                proof {
                    assert(v@.skip(p2 as int).len() > 0);
                }
                Err(CacheDecodeError::Malformed)
            }
        },
    }
}

} // verus!

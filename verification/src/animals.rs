//! The animal categories, their provider URLs, and the validation of the
//! batches the providers return.
//!
//! Each category has its own wire shape: the dog provider answers with an
//! object holding a `facts` array and a `success` flag; the cat provider
//! answers with an array of objects each holding a `text` field, among
//! others. Validation parses the payload, applies the category-specific
//! checks (provider-reported failure, batch size), and then the
//! category-agnostic check that no fact is empty.

use vstd::prelude::*;

use crate::errors::AppError;
use crate::json::{
    jmembers, jvals, lemma_jmembers_index, lemma_jvals_index, parse_json, spec_json, JVal,
    JsonValue,
};
use crate::Shard;

verus! {

/// The categories facts are served for. A new animal can be added here.
#[derive(Clone, Copy, Debug, PartialEq, Eq, Structural)]
pub enum Animal {
    Dog,
    Cat,
}

impl Animal {
    /// The category's lower-case name.
    pub open spec fn spec_name(self) -> Seq<char> {
        match self {
            Animal::Dog => "dog"@,
            Animal::Cat => "cat"@,
        }
    }

    /// The category's lower-case name.
    pub fn name(&self) -> (r: String)
        ensures
            r@ == self.spec_name(),
    {
        match self {
            Animal::Dog => <String as vstd::string::StringExecFns>::from_str("dog"),
            Animal::Cat => <String as vstd::string::StringExecFns>::from_str("cat"),
        }
    }
}

/// The character of the decimal digit `d`.
pub open spec fn dec_digit(d: int) -> char
    recommends
        0 <= d < 10,
{
    if d == 0 {
        '0'
    } else if d == 1 {
        '1'
    } else if d == 2 {
        '2'
    } else if d == 3 {
        '3'
    } else if d == 4 {
        '4'
    } else if d == 5 {
        '5'
    } else if d == 6 {
        '6'
    } else if d == 7 {
        '7'
    } else if d == 8 {
        '8'
    } else {
        '9'
    }
}

/// The decimal rendering of `n`, without leading zeros.
pub open spec fn dec_str(n: int) -> Seq<char>
    recommends
        n >= 0,
    decreases n,
{
    if n < 10 {
        seq![dec_digit(n)]
    } else {
        dec_str(n / 10).push(dec_digit(n % 10))
    }
}

/// The URL a batch of `shard_size` facts is requested from, per category.
pub open spec fn spec_url(animal: Animal, shard_size: usize) -> Seq<char> {
    match animal {
        Animal::Dog => "https://dog-api.kinduff.com/api/facts?number="@ + dec_str(
            shard_size as int,
        ),
        Animal::Cat => "https://cat-fact.herokuapp.com/facts/random?type=cat&amount="@ + dec_str(
            shard_size as int,
        ),
    }
}

fn push_digit(s: &mut String, d: usize)
    requires
        d < 10,
    ensures
        final(s)@ == old(s)@.push(dec_digit(d as int)),
{
    proof {
        reveal_strlit("0");
        reveal_strlit("1");
        reveal_strlit("2");
        reveal_strlit("3");
        reveal_strlit("4");
        reveal_strlit("5");
        reveal_strlit("6");
        reveal_strlit("7");
        reveal_strlit("8");
        reveal_strlit("9");
    }
    let ghost before = s@;
    if d == 0 {
        s.append("0");
    } else if d == 1 {
        s.append("1");
    } else if d == 2 {
        s.append("2");
    } else if d == 3 {
        s.append("3");
    } else if d == 4 {
        s.append("4");
    } else if d == 5 {
        s.append("5");
    } else if d == 6 {
        s.append("6");
    } else if d == 7 {
        s.append("7");
    } else if d == 8 {
        s.append("8");
    } else {
        s.append("9");
    }
    proof {
        assert(s@ =~= before.push(dec_digit(d as int)));
    }
}

/// The reversed digits of `rev`, rendered from the last one back to the
/// first.
spec fn rev_str(rev: Seq<usize>) -> Seq<char>
    decreases rev,
{
    if rev.len() == 0 {
        Seq::empty()
    } else {
        seq![dec_digit(rev.last() as int)] + rev_str(rev.drop_last())
    }
}

/// Appends the decimal rendering of `n` to `s`.
fn push_decimal(s: &mut String, n: usize)
    ensures
        final(s)@ == old(s)@ + dec_str(n as int),
{
    let mut rev: Vec<usize> = Vec::new();
    let mut m = n;
    proof {
        assert(rev_str(rev@) =~= Seq::<char>::empty());
        assert(dec_str(n as int) =~= dec_str(m as int) + rev_str(rev@));
    }
    loop
        invariant_except_break
            dec_str(n as int) == dec_str(m as int) + rev_str(rev@),
            forall|j: int| 0 <= j < rev@.len() ==> (#[trigger] rev@[j]) < 10,
        ensures
            dec_str(n as int) == rev_str(rev@),
            forall|j: int| 0 <= j < rev@.len() ==> (#[trigger] rev@[j]) < 10,
        decreases m,
    {
        let d = m % 10;
        let ghost prev_rev = rev@;
        let ghost prev_m = m as int;
        rev.push(d);
        m = m / 10;
        proof {
            assert(rev@.drop_last() =~= prev_rev);
            assert(rev@.last() == d);
            assert(rev_str(rev@) == seq![dec_digit(d as int)] + rev_str(prev_rev));
        }
        if m == 0 {
            proof {
                assert(prev_m < 10);
                assert(dec_str(prev_m) == seq![dec_digit(d as int)]);
                assert(dec_str(n as int) =~= rev_str(rev@));
            }
            break ;
        }
        proof {
            assert(prev_m >= 10);
            assert(dec_str(prev_m) == dec_str(m as int).push(dec_digit(d as int)));
            assert(dec_str(m as int).push(dec_digit(d as int)) =~= dec_str(m as int) + seq![
                dec_digit(d as int),
            ]);
            assert((dec_str(m as int) + seq![dec_digit(d as int)]) + rev_str(prev_rev) =~= dec_str(
                m as int,
            ) + (seq![dec_digit(d as int)] + rev_str(prev_rev)));
        }
    }
    let ghost start = s@;
    let mut i = rev.len();
    proof {
        assert(rev@.subrange(0, rev@.len() as int) =~= rev@);
    }
    while i > 0
        invariant
            0 <= i <= rev@.len(),
            forall|j: int| 0 <= j < rev@.len() ==> (#[trigger] rev@[j]) < 10,
            start + rev_str(rev@) == s@ + rev_str(rev@.subrange(0, i as int)),
        decreases i,
    {
        i = i - 1;
        let ghost before = s@;
        push_digit(s, rev[i]);
        proof {
            let sub = rev@.subrange(0, i as int + 1);
            assert(sub.last() == rev@[i as int]);
            assert(sub.drop_last() =~= rev@.subrange(0, i as int));
            assert(rev_str(sub) == seq![dec_digit(rev@[i as int] as int)] + rev_str(
                rev@.subrange(0, i as int),
            ));
            assert(before.push(dec_digit(rev@[i as int] as int)) =~= before + seq![
                dec_digit(rev@[i as int] as int),
            ]);
            assert((before + seq![dec_digit(rev@[i as int] as int)]) + rev_str(
                rev@.subrange(0, i as int),
            ) =~= before + rev_str(sub));
        }
    }
    proof {
        assert(rev_str(rev@.subrange(0, 0)) =~= Seq::<char>::empty());
        assert(s@ + Seq::<char>::empty() =~= s@);
        assert(dec_str(n as int) == rev_str(rev@));
    }
}

/// The URL a batch of `shard_size` facts is requested from.
pub fn url(animal: &Animal, shard_size: usize) -> (r: String)
    ensures
        r@ == spec_url(*animal, shard_size),
{
    let mut s = match animal {
        Animal::Dog => <String as vstd::string::StringExecFns>::from_str(
            "https://dog-api.kinduff.com/api/facts?number=",
        ),
        Animal::Cat => <String as vstd::string::StringExecFns>::from_str(
            "https://cat-fact.herokuapp.com/facts/random?type=cat&amount=",
        ),
    };
    push_decimal(&mut s, shard_size);
    s
}

/// The key of the dog provider's fact list.
pub open spec fn key_facts() -> Seq<char> {
    seq!['f', 'a', 'c', 't', 's']
}

/// The key of the dog provider's success flag.
pub open spec fn key_success() -> Seq<char> {
    seq!['s', 'u', 'c', 'c', 'e', 's', 's']
}

/// The key of a cat fact's text.
pub open spec fn key_text() -> Seq<char> {
    seq!['t', 'e', 'x', 't']
}

/// The value bound to `key` by the first member of `ms` that binds it.
pub open spec fn sj_lookup(ms: Seq<(Seq<char>, JVal)>, key: Seq<char>) -> Option<JVal>
    decreases ms,
{
    if ms.len() == 0 {
        None
    } else if ms[0].0 == key {
        Some(ms[0].1)
    } else {
        sj_lookup(ms.drop_first(), key)
    }
}

/// The texts of `es`, provided every element is a string.
pub open spec fn sj_texts(es: Seq<JVal>) -> Option<Seq<Seq<char>>>
    decreases es,
{
    if es.len() == 0 {
        Some(Seq::empty())
    } else {
        match es[0] {
            JVal::Text(t) => match sj_texts(es.drop_first()) {
                None => None,
                Some(r) => Some(seq![t] + r),
            },
            _ => None,
        }
    }
}

/// The `text` fields of `es`, provided every element is an object binding
/// `text` to a string.
pub open spec fn sj_cat_texts(es: Seq<JVal>) -> Option<Seq<Seq<char>>>
    decreases es,
{
    if es.len() == 0 {
        Some(Seq::empty())
    } else {
        match es[0] {
            JVal::Object(ms) => match sj_lookup(ms, key_text()) {
                Some(JVal::Text(t)) => match sj_cat_texts(es.drop_first()) {
                    None => None,
                    Some(r) => Some(seq![t] + r),
                },
                _ => None,
            },
            _ => None,
        }
    }
}

/// The facts and the success flag carried by the dog provider's document.
pub open spec fn sp_dog_batch(doc: JVal) -> Option<(Seq<Seq<char>>, bool)> {
    match doc {
        JVal::Object(ms) => match (sj_lookup(ms, key_facts()), sj_lookup(ms, key_success())) {
            (Some(JVal::Array(es)), Some(JVal::Bool(b))) => match sj_texts(es) {
                Some(f) => Some((f, b)),
                None => None,
            },
            _ => None,
        },
        _ => None,
    }
}

/// The facts carried by the cat provider's document.
pub open spec fn sp_cat_batch(doc: JVal) -> Option<Seq<Seq<char>>> {
    match doc {
        JVal::Array(es) => sj_cat_texts(es),
        _ => None,
    }
}

/// The facts and success flag of `body` read per `animal`'s wire shape.
/// The cat provider has no success flag, so its batches count as reported
/// successful.
pub open spec fn spec_batch(body: Seq<char>, animal: Animal) -> Option<(Seq<Seq<char>>, bool)> {
    match spec_json(body) {
        None => None,
        Some(doc) => match animal {
            Animal::Dog => sp_dog_batch(doc),
            Animal::Cat => match sp_cat_batch(doc) {
                Some(f) => Some((f, true)),
                None => None,
            },
        },
    }
}

/// The category-specific validation: parse, then the provider's own
/// success indicator, then the batch size.
pub open spec fn spec_validate_specific(body: Seq<char>, animal: Animal, want: usize) -> Result<
    Seq<Seq<char>>,
    AppError,
> {
    match spec_batch(body, animal) {
        None => Err(AppError::ParseError),
        Some((facts, success)) => if !success {
            Err(AppError::ProviderReportedFailure)
        } else if facts.len() != want {
            Err(AppError::CountMismatch { got: facts.len() as usize, want })
        } else {
            Ok(facts)
        },
    }
}

/// Some fact of the batch is the empty string.
pub open spec fn has_empty_fact(facts: Seq<Seq<char>>) -> bool {
    exists|i: int| 0 <= i < facts.len() && facts[i].len() == 0
}

/// The whole validation pipeline: the category-specific checks, then the
/// category-agnostic check that no fact is empty.
pub open spec fn spec_validate(body: Seq<char>, animal: Animal, want: usize) -> Result<
    Seq<Seq<char>>,
    AppError,
> {
    match spec_validate_specific(body, animal, want) {
        Err(e) => Err(e),
        Ok(facts) => if has_empty_fact(facts) {
            Err(AppError::EmptyFactFound)
        } else {
            Ok(facts)
        },
    }
}

fn chars_eq(a: &Vec<char>, b: &Vec<char>) -> (r: bool)
    ensures
        r == (a@ == b@),
{
    if a.len() != b.len() {
        return false;
    }
    let mut i: usize = 0;
    while i < a.len()
        invariant
            0 <= i <= a@.len(),
            a@.len() == b@.len(),
            forall|j: int| 0 <= j < i ==> a@[j] == b@[j],
        decreases a@.len() - i,
    {
        if a[i] != b[i] {
            return false;
        }
        i = i + 1;
    }
    proof {
        assert(a@ =~= b@);
    }
    true
}

fn obj_lookup<'a>(ms: &'a Vec<(Vec<char>, JsonValue)>, key: &Vec<char>) -> (r: Option<
    &'a JsonValue,
>)
    ensures
        match r {
            Some(v) => sj_lookup(jmembers(ms@), key@) == Some(v.sview()),
            None => sj_lookup(jmembers(ms@), key@) is None,
        },
{
    let ghost t = jmembers(ms@);
    proof {
        crate::json::lemma_jmembers_len(ms@);
        assert(t.skip(0) =~= t);
    }
    let mut i: usize = 0;
    while i < ms.len()
        invariant
            0 <= i <= ms@.len(),
            t == jmembers(ms@),
            t.len() == ms@.len(),
            sj_lookup(t, key@) == sj_lookup(t.skip(i as int), key@),
        decreases ms@.len() - i,
    {
        proof {
            lemma_jmembers_index(ms@, i as int);
            assert(t.skip(i as int)[0] == t[i as int]);
            assert(t.skip(i as int).drop_first() =~= t.skip(i as int + 1));
        }
        let entry = &ms[i];
        if chars_eq(&entry.0, key) {
            return Some(&entry.1);
        }
        i = i + 1;
    }
    proof {
        assert(t.skip(ms@.len() as int) =~= Seq::<(Seq<char>, JVal)>::empty());
    }
    None
}

/// `r`, with `prefix` prepended to the collected texts.
pub open spec fn ts_prepend(prefix: Seq<Seq<char>>, r: Option<Seq<Seq<char>>>) -> Option<
    Seq<Seq<char>>,
> {
    match r {
        None => None,
        Some(rest) => Some(prefix + rest),
    }
}

proof fn lemma_ts_prepend(a: Seq<Seq<char>>, b: Seq<Seq<char>>, r: Option<Seq<Seq<char>>>)
    ensures
        ts_prepend(a, ts_prepend(b, r)) == ts_prepend(a + b, r),
{
    match r {
        None => {},
        Some(rest) => {
            assert(a + (b + rest) =~= (a + b) + rest);
        },
    }
}

proof fn lemma_deep_view_push(v: Seq<String>, s: String)
    ensures
        Seq::new(v.push(s).len(), |i: int| v.push(s)[i].deep_view()) =~= Seq::new(
            v.len(),
            |i: int| v[i].deep_view(),
        ) + seq![s@],
{
}

fn texts_of(es: &Vec<JsonValue>) -> (r: Option<Vec<String>>)
    ensures
        match r {
            Some(v) => sj_texts(jvals(es@)) == Some(v.deep_view()),
            None => sj_texts(jvals(es@)) is None,
        },
{
    let ghost t = jvals(es@);
    proof {
        crate::json::lemma_jvals_len(es@);
    }
    let mut acc: Vec<String> = Vec::new();
    let mut i: usize = 0;
    proof {
        assert(acc.deep_view() =~= Seq::<Seq<char>>::empty());
        assert(ts_prepend(acc.deep_view(), sj_texts(t.skip(0))) == sj_texts(t.skip(0))) by {
            match sj_texts(t.skip(0)) {
                None => {},
                Some(rest) => {
                    assert(Seq::empty() + rest =~= rest);
                },
            }
        }
        assert(t.skip(0) =~= t);
    }
    while i < es.len()
        invariant
            0 <= i <= es@.len(),
            t == jvals(es@),
            t.len() == es@.len(),
            sj_texts(t) == ts_prepend(acc.deep_view(), sj_texts(t.skip(i as int))),
        decreases es@.len() - i,
    {
        proof {
            lemma_jvals_index(es@, i as int);
            assert(t.skip(i as int)[0] == t[i as int]);
            assert(t.skip(i as int).drop_first() =~= t.skip(i as int + 1));
        }
        let el = &es[i];
        match el {
            JsonValue::Text(chars) => {
                let fact = crate::sys::chars_to_string(chars);
                proof {
                    assert(sj_texts(t.skip(i as int)) == ts_prepend(
                        seq![chars@],
                        sj_texts(t.skip(i as int + 1)),
                    ));
                    lemma_ts_prepend(acc.deep_view(), seq![chars@], sj_texts(t.skip(i as int + 1)));
                    lemma_deep_view_push(acc@, fact);
                }
                let ghost prev = acc@;
                acc.push(fact);
                proof {
                    assert(acc.deep_view() =~= Seq::new(
                        prev.push(fact).len(),
                        |j: int| prev.push(fact)[j].deep_view(),
                    ));
                }
                i = i + 1;
            },
            _ => {
                return None;
            },
        }
    }
    proof {
        assert(t.skip(es@.len() as int) =~= Seq::<JVal>::empty());
        assert(ts_prepend(acc.deep_view(), sj_texts(t.skip(es@.len() as int))) == Some(
            acc.deep_view() + Seq::<Seq<char>>::empty(),
        ));
        assert(acc.deep_view() + Seq::<Seq<char>>::empty() =~= acc.deep_view());
    }
    Some(acc)
}

fn cat_texts_of(es: &Vec<JsonValue>) -> (r: Option<Vec<String>>)
    ensures
        match r {
            Some(v) => sj_cat_texts(jvals(es@)) == Some(v.deep_view()),
            None => sj_cat_texts(jvals(es@)) is None,
        },
{
    let ghost t = jvals(es@);
    proof {
        crate::json::lemma_jvals_len(es@);
    }
    let text_key = text_key_chars();
    let mut acc: Vec<String> = Vec::new();
    let mut i: usize = 0;
    proof {
        assert(ts_prepend(acc.deep_view(), sj_cat_texts(t.skip(0))) == sj_cat_texts(t.skip(0)))
            by {
            assert(acc.deep_view() =~= Seq::<Seq<char>>::empty());
            match sj_cat_texts(t.skip(0)) {
                None => {},
                Some(rest) => {
                    assert(Seq::empty() + rest =~= rest);
                },
            }
        }
        assert(t.skip(0) =~= t);
    }
    while i < es.len()
        invariant
            0 <= i <= es@.len(),
            t == jvals(es@),
            t.len() == es@.len(),
            text_key@ == key_text(),
            sj_cat_texts(t) == ts_prepend(acc.deep_view(), sj_cat_texts(t.skip(i as int))),
        decreases es@.len() - i,
    {
        proof {
            lemma_jvals_index(es@, i as int);
            assert(t.skip(i as int)[0] == t[i as int]);
            assert(t.skip(i as int).drop_first() =~= t.skip(i as int + 1));
        }
        let el = &es[i];
        let chars = match el {
            JsonValue::Object(ms) => {
                match obj_lookup(ms, &text_key) {
                    Some(v) => match v {
                        JsonValue::Text(chars) => chars,
                        _ => {
                            return None;
                        },
                    },
                    None => {
                        return None;
                    },
                }
            },
            _ => {
                return None;
            },
        };
        let fact = crate::sys::chars_to_string(chars);
        proof {
            assert(sj_cat_texts(t.skip(i as int)) == ts_prepend(
                seq![chars@],
                sj_cat_texts(t.skip(i as int + 1)),
            ));
            lemma_ts_prepend(acc.deep_view(), seq![chars@], sj_cat_texts(t.skip(i as int + 1)));
            lemma_deep_view_push(acc@, fact);
        }
        let ghost prev = acc@;
        acc.push(fact);
        proof {
            assert(acc.deep_view() =~= Seq::new(
                prev.push(fact).len(),
                |j: int| prev.push(fact)[j].deep_view(),
            ));
        }
        i = i + 1;
    }
    proof {
        assert(t.skip(es@.len() as int) =~= Seq::<JVal>::empty());
        assert(acc.deep_view() + Seq::<Seq<char>>::empty() =~= acc.deep_view());
    }
    Some(acc)
}

fn facts_key_chars() -> (k: Vec<char>)
    ensures
        k@ == key_facts(),
{
    let mut k: Vec<char> = Vec::new();
    k.push('f');
    k.push('a');
    k.push('c');
    k.push('t');
    k.push('s');
    proof {
        assert(k@ =~= key_facts());
    }
    k
}

fn success_key_chars() -> (k: Vec<char>)
    ensures
        k@ == key_success(),
{
    let mut k: Vec<char> = Vec::new();
    k.push('s');
    k.push('u');
    k.push('c');
    k.push('c');
    k.push('e');
    k.push('s');
    k.push('s');
    proof {
        assert(k@ =~= key_success());
    }
    k
}

fn text_key_chars() -> (k: Vec<char>)
    ensures
        k@ == key_text(),
{
    let mut k: Vec<char> = Vec::new();
    k.push('t');
    k.push('e');
    k.push('x');
    k.push('t');
    proof {
        assert(k@ =~= key_text());
    }
    k
}

/// Validation of one dog-provider payload: parse, check the success flag,
/// check the batch size.
fn validate_dog_facts(body: String, shard_size: usize) -> (r: Result<Shard, AppError>)
    ensures
        match r {
            Ok(shard) => spec_validate_specific(body@, Animal::Dog, shard_size) == Ok::<
                Seq<Seq<char>>,
                AppError,
            >(shard.facts.deep_view()),
            Err(e) => spec_validate_specific(body@, Animal::Dog, shard_size) == Err::<
                Seq<Seq<char>>,
                AppError,
            >(e),
        },
{
    let doc = match parse_json(body.as_str()) {
        None => {
            return Err(AppError::ParseError);
        },
        Some(d) => d,
    };
    let ms = match &doc {
        JsonValue::Object(ms) => ms,
        _ => {
            return Err(AppError::ParseError);
        },
    };
    let es = match obj_lookup(ms, &facts_key_chars()) {
        Some(v) => match v {
            JsonValue::Array(es) => es,
            _ => {
                return Err(AppError::ParseError);
            },
        },
        None => {
            return Err(AppError::ParseError);
        },
    };
    let success = match obj_lookup(ms, &success_key_chars()) {
        Some(v) => match v {
            JsonValue::Bool(b) => *b,
            _ => {
                return Err(AppError::ParseError);
            },
        },
        None => {
            return Err(AppError::ParseError);
        },
    };
    let facts = match texts_of(es) {
        Some(f) => f,
        None => {
            return Err(AppError::ParseError);
        },
    };
    if !success {
        return Err(AppError::ProviderReportedFailure);
    }
    if facts.len() != shard_size {
        return Err(AppError::CountMismatch { got: facts.len(), want: shard_size });
    }
    Ok(Shard::new(facts))
}

/// Validation of one cat-provider payload: parse, check the batch size.
fn validate_cat_facts(body: String, shard_size: usize) -> (r: Result<Shard, AppError>)
    ensures
        match r {
            Ok(shard) => spec_validate_specific(body@, Animal::Cat, shard_size) == Ok::<
                Seq<Seq<char>>,
                AppError,
            >(shard.facts.deep_view()),
            Err(e) => spec_validate_specific(body@, Animal::Cat, shard_size) == Err::<
                Seq<Seq<char>>,
                AppError,
            >(e),
        },
{
    let doc = match parse_json(body.as_str()) {
        None => {
            return Err(AppError::ParseError);
        },
        Some(d) => d,
    };
    let es = match &doc {
        JsonValue::Array(es) => es,
        _ => {
            return Err(AppError::ParseError);
        },
    };
    let facts = match cat_texts_of(es) {
        Some(f) => f,
        None => {
            return Err(AppError::ParseError);
        },
    };
    if facts.len() != shard_size {
        return Err(AppError::CountMismatch { got: facts.len(), want: shard_size });
    }
    Ok(Shard::new(facts))
}

/// The category-agnostic validation: rejects a shard holding an empty
/// fact, and passes every other shard through unchanged.
pub fn validate_shard(shard: Shard, animal: &Animal) -> (r: Result<Shard, AppError>)
    ensures
        match r {
            Ok(s2) => s2 == shard && !has_empty_fact(shard.facts.deep_view()),
            Err(e) => e == AppError::EmptyFactFound && has_empty_fact(shard.facts.deep_view()),
        },
{
    let mut i: usize = 0;
    while i < shard.facts.len()
        invariant
            0 <= i <= shard.facts@.len(),
            forall|j: int| 0 <= j < i ==> (#[trigger] shard.facts@[j])@.len() > 0,
        decreases shard.facts@.len() - i,
    {
        if shard.facts[i].as_str().is_empty() {
            proof {
                assert(shard.facts.deep_view()[i as int].len() == 0);
            }
            return Err(AppError::EmptyFactFound);
        }
        i = i + 1;
    }
    proof {
        assert(forall|j: int|
            0 <= j < shard.facts.deep_view().len() ==> shard.facts.deep_view()[j]
                == (#[trigger] shard.facts@[j])@);
    }
    Ok(shard)
}

/// Validation of one provider payload for `animal`: the category-specific
/// checks, then the category-agnostic empty-fact check. On success the
/// returned shard holds the payload's facts in payload order, stamped with
/// the current time.
pub fn validate_batch(body: String, animal: &Animal, shard_size: usize) -> (r: Result<
    Shard,
    AppError,
>)
    ensures
        match r {
            Ok(shard) => spec_validate(body@, *animal, shard_size) == Ok::<
                Seq<Seq<char>>,
                AppError,
            >(shard.facts.deep_view()),
            Err(e) => spec_validate(body@, *animal, shard_size) == Err::<Seq<Seq<char>>, AppError>(
                e,
            ),
        },
{
    let specific = match animal {
        Animal::Dog => validate_dog_facts(body, shard_size),
        Animal::Cat => validate_cat_facts(body, shard_size),
    };
    match specific {
        Err(e) => Err(e),
        Ok(shard) => validate_shard(shard, animal),
    }
}

/// A batch the provider reported successful but whose size is not the
/// requested one is rejected with `CountMismatch`, carrying both sizes.
pub proof fn lemma_count_mismatch(body: Seq<char>, animal: Animal, want: usize)
    requires
        spec_batch(body, animal) matches Some(b) && b.1 == true && b.0.len() != want,
    ensures
        spec_validate(body, animal, want) == Err::<Seq<Seq<char>>, AppError>(
            AppError::CountMismatch { got: (spec_batch(body, animal)->0).0.len() as usize, want },
        ),
{
}

/// A batch whose provider reported failure is rejected with
/// `ProviderReportedFailure`, whatever else it holds.
pub proof fn lemma_provider_failure(body: Seq<char>, animal: Animal, want: usize)
    requires
        spec_batch(body, animal) matches Some(b) && b.1 == false,
    ensures
        spec_validate(body, animal, want) == Err::<Seq<Seq<char>>, AppError>(
            AppError::ProviderReportedFailure,
        ),
{
}

/// A batch of the right size, reported successful, holding an empty fact
/// anywhere is rejected with `EmptyFactFound`.
pub proof fn lemma_empty_fact(body: Seq<char>, animal: Animal, want: usize)
    requires
        spec_batch(body, animal) matches Some(b) && b.1 == true && b.0.len() == want
            && has_empty_fact(b.0),
    ensures
        spec_validate(body, animal, want) == Err::<Seq<Seq<char>>, AppError>(
            AppError::EmptyFactFound,
        ),
{
}

/// After a successful validation the batch holds exactly `want` facts and
/// none of them is empty: the shape every successful refresh writes.
pub proof fn lemma_validate_ok_shape(body: Seq<char>, animal: Animal, want: usize)
    requires
        spec_validate(body, animal, want) is Ok,
    ensures
        spec_validate(body, animal, want)->Ok_0.len() == want,
        forall|i: int|
            0 <= i < want ==> (#[trigger] spec_validate(body, animal, want)->Ok_0[i]).len() > 0,
{
}

} // verus!
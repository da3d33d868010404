//! The server configuration the core consumes. It is produced and
//! validated upstream (argument parsing lives outside the library); the
//! core states what it relies on as [`ServerConfig::wf`] and offers
//! [`ServerConfig::is_valid`] so an unverified caller can test it.

use vstd::prelude::*;

use crate::animals::Animal;

verus! {

/// The configuration of the fact server.
#[derive(Clone)]
pub struct ServerConfig {
    pub port: u16,
    /// Number of shards per animal category.
    pub shard_num: usize,
    /// Number of facts per shard. Categories share one shard size. The
    /// range starts at 2 because one provider changes its response shape
    /// for single-item requests.
    pub shard_size: usize,
    /// Seconds between the end of one refresh pass and the start of the
    /// next; the time spent refreshing is not counted.
    pub shard_refresh_sec: u64,
    /// Maximal age (seconds) a shard may reach before it counts as stale.
    pub shard_staleness_sec: i64,
    /// The categories facts are served for, in order, without duplicates.
    pub animals: Vec<Animal>,
}

/// No category occurs twice.
pub open spec fn distinct_animals(s: Seq<Animal>) -> bool {
    forall|i: int, j: int| 0 <= i < j < s.len() ==> s[i] != s[j]
}

/// `s`, with every later occurrence of an already-seen category removed.
pub open spec fn spec_dedup(s: Seq<Animal>) -> Seq<Animal>
    decreases s.len(),
{
    if s.len() == 0 {
        Seq::empty()
    } else {
        let rest = spec_dedup(s.drop_last());
        if s.drop_last().contains(s.last()) {
            rest
        } else {
            rest.push(s.last())
        }
    }
}

/// Deduplication keeps exactly the categories that were present.
pub proof fn lemma_dedup_contains(s: Seq<Animal>, x: Animal)
    ensures
        spec_dedup(s).contains(x) <==> s.contains(x),
    decreases s.len(),
{
    if s.len() > 0 {
        lemma_dedup_contains(s.drop_last(), x);
        assert(s.contains(x) <==> (s.drop_last().contains(x) || s.last() == x)) by {
            if s.contains(x) {
                let i = choose|i: int| 0 <= i < s.len() && s[i] == x;
                if i < s.len() - 1 {
                    assert(s.drop_last()[i] == x);
                }
            }
            if s.drop_last().contains(x) {
                let i = choose|i: int| 0 <= i < s.drop_last().len() && s.drop_last()[i] == x;
                assert(s[i] == x);
            }
            if s.last() == x {
                assert(s[s.len() - 1] == x);
            }
        }
        if !s.drop_last().contains(s.last()) {
            let rest = spec_dedup(s.drop_last());
            let grown = rest.push(s.last());
            assert(grown.contains(x) <==> (rest.contains(x) || s.last() == x)) by {
                if grown.contains(x) {
                    let i = choose|i: int| 0 <= i < grown.len() && grown[i] == x;
                    if i < rest.len() {
                        assert(rest[i] == x);
                    }
                }
                if rest.contains(x) {
                    let i = choose|i: int| 0 <= i < rest.len() && rest[i] == x;
                    assert(grown[i] == x);
                }
                if s.last() == x {
                    assert(grown[rest.len() as int] == x);
                }
            }
        }
    }
}

/// Deduplication leaves no duplicates behind.
pub proof fn lemma_dedup_distinct(s: Seq<Animal>)
    ensures
        distinct_animals(spec_dedup(s)),
    decreases s.len(),
{
    if s.len() > 0 {
        lemma_dedup_distinct(s.drop_last());
        let rest = spec_dedup(s.drop_last());
        if !s.drop_last().contains(s.last()) {
            lemma_dedup_contains(s.drop_last(), s.last());
            assert(!rest.contains(s.last()));
            assert forall|i: int, j: int|
                0 <= i < j < rest.push(s.last()).len() implies rest.push(s.last())[i] != rest.push(
                s.last(),
            )[j] by {
                if j < rest.len() {
                    assert(rest[i] != rest[j]);
                } else {
                    assert(rest.push(s.last())[j] == s.last());
                    if rest.push(s.last())[i] == s.last() {
                        assert(rest[i] == s.last());
                        assert(rest.contains(s.last()));
                    }
                }
            }
        }
    }
}

fn contains_animal(v: &Vec<Animal>, a: Animal) -> (r: bool)
    ensures
        r == v@.contains(a),
{
    let mut i: usize = 0;
    while i < v.len()
        invariant
            0 <= i <= v@.len(),
            forall|j: int| 0 <= j < i ==> v@[j] != a,
        decreases v@.len() - i,
    {
        if v[i] == a {
            return true;
        }
        i = i + 1;
    }
    proof {
        if v@.contains(a) {
            let j = choose|j: int| 0 <= j < v@.len() && v@[j] == a;
            assert(v@[j] != a);
        }
    }
    false
}

impl ServerConfig {
    /// What the core relies on of a configuration: at least one shard per
    /// category, a shard size in the providers' accepted range, a
    /// staleness threshold beyond the refresh period (else every healthy
    /// shard would count as stale), and a non-empty, duplicate-free
    /// category list.
    pub open spec fn wf(&self) -> bool {
        &&& self.shard_num >= 1
        &&& 2 <= self.shard_size <= 100
        &&& (self.shard_staleness_sec as int) > (self.shard_refresh_sec as int)
        &&& self.animals@.len() >= 1
        &&& distinct_animals(self.animals@)
    }

    /// Tests [`ServerConfig::wf`], for callers outside the library.
    pub fn is_valid(&self) -> (b: bool)
        ensures
            b == self.wf(),
    {
        if self.shard_num < 1 || self.shard_size < 2 || self.shard_size > 100 {
            return false;
        }
        if (self.shard_staleness_sec as i128) <= (self.shard_refresh_sec as i128) {
            return false;
        }
        if self.animals.len() < 1 {
            return false;
        }
        let mut i: usize = 0;
        while i < self.animals.len()
            invariant
                0 <= i <= self.animals@.len(),
                forall|p: int, q: int| 0 <= p < q < i ==> self.animals@[p] != self.animals@[q],
            decreases self.animals@.len() - i,
        {
            let mut j: usize = 0;
            while j < i
                invariant
                    0 <= j <= i < self.animals@.len(),
                    forall|p: int| 0 <= p < j ==> self.animals@[p] != self.animals@[i as int],
                decreases i - j,
            {
                if self.animals[j] == self.animals[i] {
                    return false;
                }
                j = j + 1;
            }
            i = i + 1;
        }
        true
    }

    /// Removes every later occurrence of an already-seen category, keeping
    /// the first occurrences in order. Nothing else changes.
    pub fn deduplicate_animals(&mut self)
        ensures
            final (self).animals@ == spec_dedup(old(self).animals@),
            final (self).port == old(self).port,
            final (self).shard_num == old(self).shard_num,
            final (self).shard_size == old(self).shard_size,
            final (self).shard_refresh_sec == old(self).shard_refresh_sec,
            final (self).shard_staleness_sec == old(self).shard_staleness_sec,
    {
        let ghost all = self.animals@;
        let mut out: Vec<Animal> = Vec::new();
        let mut i: usize = 0;
        proof {
            assert(all.subrange(0, 0) =~= Seq::<Animal>::empty());
            assert(out@ =~= spec_dedup(all.subrange(0, 0)));
        }
        while i < self.animals.len()
            invariant
                0 <= i <= all.len(),
                self.animals@ == all,
                out@ == spec_dedup(all.subrange(0, i as int)),
            decreases all.len() - i,
        {
            let a = self.animals[i];
            proof {
                let prefix = all.subrange(0, i as int + 1);
                assert(prefix.drop_last() =~= all.subrange(0, i as int));
                assert(prefix.last() == all[i as int]);
                lemma_dedup_contains(all.subrange(0, i as int), a);
            }
            if !contains_animal(&out, a) {
                out.push(a);
            }
            i = i + 1;
        }
        proof {
            assert(all.subrange(0, all.len() as int) =~= all);
        }
        self.animals = out;
    }
}

/// The value of the decimal digit `c`.
pub open spec fn digit_val(c: char) -> int {
    if c == '0' {
        0
    } else if c == '1' {
        1
    } else if c == '2' {
        2
    } else if c == '3' {
        3
    } else if c == '4' {
        4
    } else if c == '5' {
        5
    } else if c == '6' {
        6
    } else if c == '7' {
        7
    } else if c == '8' {
        8
    } else {
        9
    }
}

/// Every character of `s` is a decimal digit.
pub open spec fn all_digits(s: Seq<char>) -> bool {
    forall|i: int| 0 <= i < s.len() ==> crate::json::json_digit(#[trigger] s[i])
}

/// The numeric value of the digit string `s`, most significant first.
pub open spec fn digits_val(s: Seq<char>) -> int
    decreases s.len(),
{
    if s.len() == 0 {
        0
    } else {
        digits_val(s.drop_last()) * 10 + digit_val(s.last())
    }
}

pub proof fn lemma_digits_val_nonneg(s: Seq<char>)
    ensures
        digits_val(s) >= 0,
    decreases s.len(),
{
    if s.len() > 0 {
        lemma_digits_val_nonneg(s.drop_last());
    }
}

/// What a shard-size argument must be: a non-empty string of decimal
/// digits whose value lies in the accepted range.
pub open spec fn spec_validate_shard_size(s: Seq<char>) -> Result<int, Seq<char>> {
    if !(s.len() > 0 && all_digits(s)) {
        Err("shard size is not a number"@)
    } else if !(2 <= digits_val(s) <= 100) {
        Err("shard size not in range 2-100"@)
    } else {
        Ok(digits_val(s))
    }
}

/// `x`, cut off at 101: large enough to tell every accepted shard size
/// apart, small enough never to overflow.
pub open spec fn clamp101(x: int) -> int {
    if x > 101 {
        101
    } else {
        x
    }
}

/// Checks a shard-size argument per [`spec_validate_shard_size`].
pub fn validate_shard_size(s: &str) -> (r: Result<usize, String>)
    ensures
        match r {
            Ok(v) => spec_validate_shard_size(s@) == Ok::<int, Seq<char>>(v as int),
            Err(m) => spec_validate_shard_size(s@) == Err::<int, Seq<char>>(m@),
        },
{
    let n = s.unicode_len();
    if n == 0 {
        return Err(<String as vstd::string::StringExecFns>::from_str(
            "shard size is not a number",
        ));
    }
    let mut acc: usize = 0;
    let mut i: usize = 0;
    proof {
        assert(s@.subrange(0, 0) =~= Seq::<char>::empty());
    }
    while i < n
        invariant
            0 <= i <= n,
            n == s@.len(),
            all_digits(s@.subrange(0, i as int)),
            acc as int == clamp101(digits_val(s@.subrange(0, i as int))),
            acc <= 101,
        decreases n - i,
    {
        let c = s.get_char(i);
        let ghost prefix = s@.subrange(0, i as int);
        let ghost grown = s@.subrange(0, i as int + 1);
        proof {
            assert(grown.drop_last() =~= prefix);
            assert(grown.last() == s@[i as int]);
            lemma_digits_val_nonneg(prefix);
        }
        let d: usize = if c == '0' {
            0
        } else if c == '1' {
            1
        } else if c == '2' {
            2
        } else if c == '3' {
            3
        } else if c == '4' {
            4
        } else if c == '5' {
            5
        } else if c == '6' {
            6
        } else if c == '7' {
            7
        } else if c == '8' {
            8
        } else if c == '9' {
            9
        } else {
            return Err(<String as vstd::string::StringExecFns>::from_str(
                "shard size is not a number",
            ));
        };
        let next = acc * 10 + d;
        acc = if next > 101 {
            101
        } else {
            next
        };
        i = i + 1;
    }
    proof {
        assert(s@.subrange(0, n as int) =~= s@);
    }
    if acc < 2 || acc > 100 {
        return Err(<String as vstd::string::StringExecFns>::from_str(
            "shard size not in range 2-100",
        ));
    }
    Ok(acc)
}

} // verus!
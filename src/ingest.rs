//! Placement of imported files in the managed library: the year/month shard
//! of a capture time, and collision-free file names within a shard.

use vstd::prelude::*;
use vstd::relations::injective_on;
use vstd::set_lib::{lemma_int_range, lemma_len_subset, lemma_map_size, set_int_range};
use crate::civil::{year_month_of, year_of_timestamp, month_of_timestamp};
use crate::media::path_views;
use crate::text::{
    chars_of, decimal, decimal_digits, decimal_width, lemma_decimal_injective, lemma_decimal_width_fits, lemma_padded_len,
    lemma_stem_extension_len, slice_chars, extension, extension_of, padded_decimal, padded_digits, stem,
    stem_of, string_of,
};

verus! {

/// The shard directory names of a capture time: its UTC year in four digits
/// and its month in two; none for a year that four digits cannot hold.
pub open spec fn shard_of(ts: int) -> Option<(Seq<char>, Seq<char>)> {
    let y = year_of_timestamp(ts);
    if 0 <= y <= 9999 {
        Some((padded_decimal(y as nat, 4), padded_decimal(month_of_timestamp(ts) as nat, 2)))
    } else {
        None
    }
}

/// The year and month directories that a file with this capture time is
/// imported into (`2021`, `06`).
pub fn shard_dirs(date_taken: i64) -> (r: Option<(String, String)>)
    ensures
        r is None <==> shard_of(date_taken as int) is None,
        r matches Some((y, m)) ==> shard_of(date_taken as int) == Some((y@, m@)),
{
    match year_month_of(date_taken) {
        Some((y, m)) => {
            if 0 <= y && y <= 9999 {
                Some((string_of(&padded_digits(y as u64, 4)), string_of(&padded_digits(m as u64, 2))))
            } else {
                None
            }
        },
        None => None,
    }
}

/// The `n`-th alternative name of a file: `<stem>_<n>.<ext>`.
pub open spec fn candidate_name(stem: Seq<char>, ext: Seq<char>, n: nat) -> Seq<char> {
    stem + seq!['_'] + decimal(n) + seq!['.'] + ext
}

/// The `n`-th alternative of a file name that has an extension.
pub open spec fn alternative_name(f: Seq<char>, n: nat) -> Seq<char> {
    candidate_name(stem_of(f), extension_of(f)->0, n)
}

proof fn lemma_alternative_injective(f: Seq<char>, m1: nat, m2: nat)
    requires
        alternative_name(f, m1) == alternative_name(f, m2),
    ensures
        m1 == m2,
{
    let a = stem_of(f) + seq!['_'];
    let d1 = decimal(m1);
    let d2 = decimal(m2);
    let b = seq!['.'] + extension_of(f)->0;
    let c1 = alternative_name(f, m1);
    let c2 = alternative_name(f, m2);
    assert(c1 =~= a + d1 + b);
    assert(c2 =~= a + d2 + b);
    assert(d1.len() == d2.len());
    assert forall|k: int| 0 <= k < d1.len() implies d1[k] == d2[k] by {
        assert(c1[a.len() + k] == d1[k]);
        assert(c2[a.len() + k] == d2[k]);
    }
    assert(d1 =~= d2);
    lemma_decimal_injective(m1, m2);
}

proof fn lemma_alternative_longer(f: Seq<char>, m: nat)
    requires
        extension_of(f) is Some,
    ensures
        alternative_name(f, m).len() > f.len(),
{
    lemma_stem_extension_len(f);
    lemma_decimal_width_fits(m);
    lemma_padded_len(m, decimal_width(m));
}

/// A list of `n` names cannot hold a name that has an extension together
/// with its first `n` alternatives: those are `n + 1` distinct names.
proof fn lemma_some_alternative_free(f: Seq<char>, taken: Seq<Seq<char>>)
    requires
        extension_of(f) is Some,
        taken.contains(f),
    ensures
        exists|m: nat| 1 <= m <= taken.len() && !taken.contains(#[trigger] alternative_name(f, m)),
{
    let n = taken.len() as int;
    if forall|m: nat| 1 <= m <= n ==> taken.contains(#[trigger] alternative_name(f, m)) {
        let x = set_int_range(1, n + 1);
        let g = |m: int| alternative_name(f, m as nat);
        lemma_int_range(1, n + 1);
        let y = x.map(g);
        assert(injective_on(g, x)) by {
            assert forall|p: int, q: int| x.contains(p) && x.contains(q) && #[trigger] g(p) == #[trigger] g(q) implies p == q by {
                lemma_alternative_injective(f, p as nat, q as nat);
            }
        }
        lemma_map_size(x, y, g);
        let all = taken.to_set();
        assert(y.insert(f).subset_of(all)) by {
            assert forall|c: Seq<char>| y.insert(f).contains(c) implies all.contains(c) by {
                if c != f {
                    let m = choose|m: int| x.contains(m) && g(m) == c;
                    assert(taken.contains(alternative_name(f, m as nat)));
                }
            }
        }
        assert(!y.contains(f)) by {
            if y.contains(f) {
                let m = choose|m: int| x.contains(m) && g(m) == f;
                lemma_alternative_longer(f, m as nat);
            }
        }
        taken.lemma_cardinality_of_set();
        lemma_len_subset(y.insert(f), all);
        assert(false);
    }
}

/// Whether a name is among the names already in use.
pub fn is_taken(taken: &Vec<String>, name: &String) -> (r: bool)
    ensures
        r == path_views(taken@).contains(name@),
{
    let mut i: usize = 0;
    while i < taken.len()
        invariant
            i <= taken@.len(),
            forall|j: int| 0 <= j < i ==> path_views(taken@)[j] != name@,
        decreases taken@.len() - i,
    {
        if taken[i] == *name {
            assert(path_views(taken@)[i as int] == name@);
            return true;
        }
        i = i + 1;
    }
    false
}

/// The name under which a file is copied into a directory whose entries are
/// `taken`: its own name where that is free, else `<stem>_<n>.<ext>` with the
/// least `n` from 1 that is free (there always is one); none for a name that
/// collides and has no extension.
pub fn destination_name(file_name: &str, taken: &Vec<String>) -> (r: Option<String>)
    ensures
        !path_views(taken@).contains(file_name@) ==> (r matches Some(n) && n@ == file_name@),
        path_views(taken@).contains(file_name@) && extension_of(file_name@) is None ==> r is None,
        path_views(taken@).contains(file_name@) && extension_of(file_name@) is Some ==> {
            &&& r is Some
            &&& exists|n: nat|
                {
                    &&& n >= 1
                    &&& r->0@ == alternative_name(file_name@, n)
                    &&& !path_views(taken@).contains(r->0@)
                    &&& forall|m: nat|
                        1 <= m < n ==> path_views(taken@).contains(#[trigger] alternative_name(file_name@, m))
                }
        },
{
    let own = string_of(&chars_of(file_name));
    if !is_taken(taken, &own) {
        return Some(own);
    }
    let f = chars_of(file_name);
    let ext = match extension(&f) {
        Some(e) => e,
        None => return None,
    };
    let base = stem(&f);
    let ghost e = extension_of(file_name@)->0;
    let limit: usize = taken.len();
    let mut i: usize = 0;
    while i < limit
        invariant
            i <= limit,
            limit == taken@.len(),
            f@ == file_name@,
            ext@ == e,
            e == extension_of(file_name@)->0,
            extension_of(file_name@) is Some,
            path_views(taken@).contains(file_name@),
            base@ == stem_of(file_name@),
            forall|m: nat| 1 <= m <= i ==> path_views(taken@).contains(
                #[trigger] alternative_name(file_name@, m),
            ),
        decreases limit - i,
    {
        let n: usize = i + 1;
        let mut c = slice_chars(&base, 0, base.len());
        assert(base@.subrange(0, base@.len() as int) == base@);
        c.push('_');
        let ghost c1 = c@;
        let mut digits = decimal_digits(n as u64);
        c.append(&mut digits);
        let ghost c2 = c@;
        assert(c2 == c1 + decimal(n as nat));
        c.push('.');
        let mut tail = slice_chars(&ext, 0, ext.len());
        assert(ext@.subrange(0, ext@.len() as int) == ext@);
        c.append(&mut tail);
        let name = string_of(&c);
        assert(c1 =~= stem_of(file_name@) + seq!['_']);
        assert(name@ =~= stem_of(file_name@) + seq!['_'] + decimal(n as nat) + seq!['.'] + e);
        assert(name@ == alternative_name(file_name@, n as nat));
        if !is_taken(taken, &name) {
            return Some(name);
        }
        i = i + 1;
    }
    proof {
        lemma_some_alternative_free(file_name@, path_views(taken@));
    }
    None
}

} // verus!

//! The name validator: length, character set, top-level allow-list, and
//! splitting a name into its labels.

use vstd::prelude::*;

use crate::constants::{MAX_LENGTH, MIN_LENGTH, SEPARATOR};
use crate::data::NameFault;

verus! {

/// Whether a byte may occur in a name: lowercase ascii letters, digits, or
/// the label separator.
pub open spec fn is_allowed_char(c: u8) -> bool {
    (97 <= c && c <= 122) || (48 <= c && c <= 57) || c == SEPARATOR
}

/// Whether every byte of `s` is allowed in a name.
pub open spec fn all_chars_allowed(s: Seq<u8>) -> bool {
    forall|i: int| 0 <= i < s.len() ==> is_allowed_char(#[trigger] s[i])
}

/// Whether `s` holds at least one label separator.
pub open spec fn has_separator(s: Seq<u8>) -> bool {
    exists|i: int| 0 <= i < s.len() && #[trigger] s[i] == SEPARATOR
}

/// Whether index `i` holds the last separator of `s`.
pub open spec fn is_last_separator(s: Seq<u8>, i: int) -> bool {
    &&& 0 <= i < s.len()
    &&& s[i] == SEPARATOR
    &&& forall|j: int| i < j < s.len() ==> #[trigger] s[j] != SEPARATOR
}

/// The index of the last separator of `s`, meaningful when one exists.
pub open spec fn last_separator(s: Seq<u8>) -> int {
    choose|i: int| is_last_separator(s, i)
}

/// The top-level label of `s`: everything after the last separator.
pub open spec fn top_level(s: Seq<u8>) -> Seq<u8> {
    s.subrange(last_separator(s) + 1, s.len() as int)
}

/// The views of a list of byte strings.
pub open spec fn views_of(ts: Seq<Vec<u8>>) -> Seq<Seq<u8>> {
    ts.map_values(|t: Vec<u8>| t@)
}

/// Whether the top-level label of `s` matches one allow-list entry exactly.
pub open spec fn top_level_allowed(s: Seq<u8>, tlds: Seq<Seq<u8>>) -> bool {
    exists|i: int| 0 <= i < tlds.len() && #[trigger] tlds[i] == top_level(s)
}

/// The outcome of name validation: the length must lie strictly above the
/// minimum and at most at the maximum, every byte must be allowed, and the
/// label after the last separator must be in the allow-list.
pub open spec fn spec_validate(name: Seq<u8>, tlds: Seq<Seq<u8>>) -> Result<(), NameFault> {
    if name.len() <= MIN_LENGTH {
        Err(NameFault::TooShort)
    } else if name.len() > MAX_LENGTH {
        Err(NameFault::TooLong)
    } else if !all_chars_allowed(name) {
        Err(NameFault::BadChar)
    } else if !has_separator(name) {
        Err(NameFault::MissingTopLevel)
    } else if !top_level_allowed(name, tlds) {
        Err(NameFault::UnknownTopLevel)
    } else {
        Ok(())
    }
}

/// The labels of `s`, split on the separator byte. The empty sequence splits
/// into one empty label; every separator starts a further label.
pub open spec fn spec_split(s: Seq<u8>) -> Seq<Seq<u8>>
    decreases s.len(),
{
    if s.len() == 0 {
        seq![s]
    } else if s[0] == SEPARATOR {
        seq![Seq::<u8>::empty()] + spec_split(s.drop_first())
    } else {
        let rest = spec_split(s.drop_first());
        seq![seq![s[0]] + rest[0]] + rest.drop_first()
    }
}

/// The primary domain of `s`: its last two labels, reassembled with the
/// separator. Meaningful when `s` has at least two labels.
pub open spec fn spec_primary(s: Seq<u8>) -> Seq<u8> {
    let p = spec_split(s);
    p[p.len() - 2] + seq![SEPARATOR] + p[p.len() - 1]
}

/// A split always yields at least one label.
pub proof fn lemma_split_nonempty(s: Seq<u8>)
    ensures
        spec_split(s).len() >= 1,
    decreases s.len(),
{
    if s.len() == 0 {
    } else {
        lemma_split_nonempty(s.drop_first());
    }
}

/// Two last separators are the same separator.
pub proof fn lemma_last_separator_unique(s: Seq<u8>, i: int, j: int)
    requires
        is_last_separator(s, i),
        is_last_separator(s, j),
    ensures
        i == j,
{
    if i < j {
        assert(s[j] != SEPARATOR);
    } else if j < i {
        assert(s[i] != SEPARATOR);
    }
}

/// When a separator exists, a last one exists, and `last_separator` denotes
/// it.
pub proof fn lemma_last_separator_exists(s: Seq<u8>)
    requires
        has_separator(s),
    ensures
        is_last_separator(s, last_separator(s)),
    decreases s.len(),
{
    if s.len() > 0 && s[s.len() - 1] == SEPARATOR {
        assert(is_last_separator(s, s.len() - 1));
    } else {
        let w = choose|i: int| 0 <= i < s.len() && #[trigger] s[i] == SEPARATOR;
        assert(s.drop_last()[w] == s[w]);
        assert(has_separator(s.drop_last()));
        lemma_last_separator_exists(s.drop_last());
        let k = last_separator(s.drop_last());
        assert(s[k] == s.drop_last()[k]);
        assert forall|j: int| k < j < s.len() implies #[trigger] s[j] != SEPARATOR by {
            if j < s.len() - 1 {
                assert(s.drop_last()[j] == s[j]);
            }
        }
        assert(is_last_separator(s, k));
    }
}

/// A name that splits into a single label is that label.
pub proof fn lemma_split_single(s: Seq<u8>)
    requires
        spec_split(s).len() == 1,
    ensures
        spec_split(s)[0] == s,
    decreases s.len(),
{
    if s.len() == 0 {
    } else if s[0] == SEPARATOR {
        lemma_split_nonempty(s.drop_first());
    } else {
        let rest = spec_split(s.drop_first());
        lemma_split_nonempty(s.drop_first());
        assert(rest.drop_first().len() == 0);
        lemma_split_single(s.drop_first());
        assert(spec_split(s)[0] =~= s);
    }
}

/// A name with exactly two labels is its own primary domain.
pub proof fn lemma_two_label_primary(s: Seq<u8>)
    requires
        spec_split(s).len() == 2,
    ensures
        spec_primary(s) == s,
    decreases s.len(),
{
    if s.len() == 0 {
    } else if s[0] == SEPARATOR {
        let rest = s.drop_first();
        assert(spec_split(rest).len() == 1);
        lemma_split_single(rest);
        assert(spec_split(s)[0] =~= Seq::<u8>::empty());
        assert(spec_split(s)[1] == spec_split(rest)[0]);
        assert(spec_primary(s) == spec_split(s)[0] + seq![SEPARATOR] + rest);
        assert(spec_primary(s).len() == s.len());
        assert forall|i: int| 0 <= i < s.len() implies spec_primary(s)[i] == s[i] by {
            if i > 0 {
                assert(rest[i - 1] == s[i]);
            }
        }
        assert(spec_primary(s) =~= s);
    } else {
        let rest = s.drop_first();
        let r = spec_split(rest);
        lemma_split_nonempty(rest);
        assert(spec_split(s).len() == 1 + r.drop_first().len());
        assert(r.len() == 2);
        lemma_two_label_primary(rest);
        assert(spec_split(s)[0] == seq![s[0]] + r[0]);
        assert(spec_split(s)[1] == r[1]);
        assert(r[0] + seq![SEPARATOR] + r[1] == rest);
        assert(spec_primary(s).len() == s.len());
        assert forall|i: int| 0 <= i < s.len() implies spec_primary(s)[i] == s[i] by {
            if i > 0 {
                assert(rest[i - 1] == s[i]);
                assert(rest[i - 1] == (r[0] + seq![SEPARATOR] + r[1])[i - 1]);
            }
        }
        assert(spec_primary(s) =~= s);
    }
}

/// How a split grows when one byte is appended: a separator starts a new
/// empty label; any other byte extends the last label.
pub proof fn lemma_split_append(t: Seq<u8>, c: u8)
    ensures
        spec_split(t.push(c)) == (if c == SEPARATOR {
            spec_split(t).push(Seq::<u8>::empty())
        } else {
            spec_split(t).update(
                spec_split(t).len() - 1,
                spec_split(t).last().push(c),
            )
        }),
    decreases t.len(),
{
    lemma_split_nonempty(t);
    let u = t.push(c);
    if t.len() == 0 {
        assert(t =~= Seq::<u8>::empty());
        assert(u.len() == 1 && u[0] == c);
        assert(u.drop_first() =~= Seq::<u8>::empty());
        if c == SEPARATOR {
            assert(spec_split(u) =~~= spec_split(t).push(Seq::<u8>::empty()));
        } else {
            assert(seq![u[0]] + spec_split(u.drop_first())[0] =~= t.push(c));
            assert(spec_split(u) =~~= spec_split(t).update(0, t.push(c)));
            assert(spec_split(t).last() =~= t);
        }
    } else {
        let t1 = t.drop_first();
        assert(u[0] == t[0]);
        assert(u.drop_first() =~= t1.push(c));
        lemma_split_append(t1, c);
        lemma_split_nonempty(t1);
        if t[0] == SEPARATOR {
            if c == SEPARATOR {
                assert(spec_split(u) =~~= spec_split(t).push(Seq::<u8>::empty()));
            } else {
                assert(spec_split(t1).len() >= 1);
                assert(spec_split(t).last() == spec_split(t1).last());
                assert(spec_split(u) =~~= spec_split(t).update(
                    spec_split(t).len() - 1,
                    spec_split(t).last().push(c),
                ));
            }
        } else {
            let rest = spec_split(t1);
            if c == SEPARATOR {
                assert(spec_split(u) =~~= spec_split(t).push(Seq::<u8>::empty()));
            } else {
                if rest.len() == 1 {
                    assert(spec_split(t) =~~= seq![seq![t[0]] + rest[0]]);
                    assert(spec_split(u) =~~= spec_split(t).update(
                        spec_split(t).len() - 1,
                        spec_split(t).last().push(c),
                    ));
                } else {
                    assert(spec_split(u) =~~= spec_split(t).update(
                        spec_split(t).len() - 1,
                        spec_split(t).last().push(c),
                    ));
                }
            }
        }
    }
}

/// The canonical top-level label, `mvx`, which migrated names are rehomed
/// under.
pub open spec fn canonical_tld() -> Seq<u8> {
    seq![109u8, 118u8, 120u8]
}

/// The canonical top-level label as bytes.
pub fn canonical_tld_bytes() -> (r: Vec<u8>)
    ensures
        r@ == canonical_tld(),
{
    let mut out: Vec<u8> = Vec::new();
    out.push(109);
    out.push(118);
    out.push(120);
    proof {
        assert(out@ =~= canonical_tld());
    }
    out
}

/// Whether two byte strings hold the same bytes.
pub fn bytes_eq(a: &Vec<u8>, b: &Vec<u8>) -> (r: bool)
    ensures
        r == (a@ == b@),
{
    let r = tail_eq(a, 0, b);
    proof {
        assert(a@.subrange(0, a@.len() as int) =~= a@);
    }
    r
}

/// Lowercase ascii letters, digits and the separator are allowed; everything
/// else is not.
pub fn check_name_char(ch: u8) -> (r: bool)
    ensures
        r == is_allowed_char(ch),
{
    if ch >= 97 && ch <= 122 {
        return true;
    }
    if ch >= 48 && ch <= 57 {
        return true;
    }
    if ch == SEPARATOR {
        return true;
    }
    false
}

/// Whether `t` equals the bytes of `name` from `start` on.
fn tail_eq(name: &Vec<u8>, start: usize, t: &Vec<u8>) -> (r: bool)
    requires
        start <= name@.len(),
    ensures
        r == (t@ == name@.subrange(start as int, name@.len() as int)),
{
    let n0 = name.len();
    let sub_len = n0 - start;
    if t.len() != sub_len {
        assert(t@ != name@.subrange(start as int, name@.len() as int));
        return false;
    }
    let mut i: usize = 0;
    while i < sub_len
        invariant
            n0 == name@.len(),
            start + sub_len == n0,
            t@.len() == sub_len,
            0 <= i <= sub_len,
            forall|j: int| 0 <= j < i ==> t@[j] == #[trigger] name@[start + j],
        decreases sub_len - i,
    {
        let idx: usize = start + i;
        if t[i] != name[idx] {
            assert(t@[i as int] != name@.subrange(start as int, name@.len() as int)[i as int]);
            return false;
        }
        i = i + 1;
    }
    proof {
        let sub = name@.subrange(start as int, name@.len() as int);
        assert forall|j: int| 0 <= j < sub_len implies t@[j] == sub[j] by {
            assert(t@[j] == name@[start + j]);
        }
        assert(t@ =~= sub);
    }
    true
}

/// Validates a name against the allow-list of top-level labels: length in
/// `(MIN_LENGTH, MAX_LENGTH]`, allowed characters only, and a known label
/// after the last separator.
pub fn validate_name(name: &Vec<u8>, tlds: &Vec<Vec<u8>>) -> (r: Result<(), NameFault>)
    ensures
        r == spec_validate(name@, views_of(tlds@)),
{
    let n = name.len();
    if n <= MIN_LENGTH {
        return Err(NameFault::TooShort);
    }
    if n > MAX_LENGTH {
        return Err(NameFault::TooLong);
    }
    let mut i: usize = 0;
    while i < n
        invariant
            n == name@.len(),
            MIN_LENGTH < n <= MAX_LENGTH,
            0 <= i <= n,
            forall|j: int| 0 <= j < i ==> is_allowed_char(#[trigger] name@[j]),
        decreases n - i,
    {
        if !check_name_char(name[i]) {
            assert(!all_chars_allowed(name@));
            return Err(NameFault::BadChar);
        }
        i = i + 1;
    }
    assert(all_chars_allowed(name@));
    // scan backwards for the last separator
    let mut k: usize = n;
    while k > 0
        invariant
            n == name@.len(),
            MIN_LENGTH < n <= MAX_LENGTH,
            all_chars_allowed(name@),
            0 <= k <= n,
            forall|j: int| k <= j < n ==> #[trigger] name@[j] != SEPARATOR,
        decreases k,
    {
        k = k - 1;
        if name[k] == SEPARATOR {
            proof {
                assert(is_last_separator(name@, k as int));
                lemma_last_separator_exists(name@);
                lemma_last_separator_unique(name@, k as int, last_separator(name@));
            }
            let tld_start = k + 1;
            let mut ti: usize = 0;
            let tld_count = tlds.len();
            while ti < tld_count
                invariant
                    tld_count == tlds@.len(),
                    0 <= ti <= tld_count,
                    tld_start <= name@.len(),
                    top_level(name@) == name@.subrange(tld_start as int, name@.len() as int),
                    forall|j: int| 0 <= j < ti ==> views_of(tlds@)[j] != top_level(name@),
                    name@.len() > MIN_LENGTH,
                    name@.len() <= MAX_LENGTH,
                    all_chars_allowed(name@),
                    has_separator(name@),
                decreases tld_count - ti,
            {
                if tail_eq(name, tld_start, &tlds[ti]) {
                    assert(views_of(tlds@)[ti as int] == top_level(name@));
                    assert(top_level_allowed(name@, views_of(tlds@)));
                    return Ok(());
                }
                ti = ti + 1;
            }
            assert(!top_level_allowed(name@, views_of(tlds@)));
            return Err(NameFault::UnknownTopLevel);
        }
    }
    assert(!has_separator(name@));
    Err(NameFault::MissingTopLevel)
}

/// Splits a name into its labels on the separator byte.
pub fn split_domain_name(name: &Vec<u8>) -> (r: Vec<Vec<u8>>)
    ensures
        views_of(r@) == spec_split(name@),
        r@.len() >= 1,
{
    let n = name.len();
    let mut parts: Vec<Vec<u8>> = Vec::new();
    let mut chunk: Vec<u8> = Vec::new();
    let mut i: usize = 0;
    proof {
        assert(name@.take(0) =~= Seq::<u8>::empty());
        assert(views_of(parts@).push(chunk@) =~~= spec_split(name@.take(0)));
    }
    while i < n
        invariant
            n == name@.len(),
            0 <= i <= n,
            views_of(parts@).push(chunk@) == spec_split(name@.take(i as int)),
        decreases n - i,
    {
        proof {
            assert(name@.take(i as int).push(name@[i as int]) =~= name@.take(i as int + 1));
            lemma_split_append(name@.take(i as int), name@[i as int]);
            lemma_split_nonempty(name@.take(i as int));
        }
        let ghost old_parts = parts@;
        let ghost old_chunk = chunk@;
        if name[i] == SEPARATOR {
            parts.push(chunk);
            chunk = Vec::new();
            proof {
                assert(views_of(parts@) =~~= views_of(old_parts).push(old_chunk));
                assert(views_of(parts@).push(chunk@) =~~= spec_split(name@.take(i as int)).push(
                    Seq::<u8>::empty(),
                ));
            }
        } else {
            chunk.push(name[i]);
            proof {
                let prev = spec_split(name@.take(i as int));
                assert(prev.last() == old_chunk);
                assert(views_of(parts@).push(chunk@) =~~= prev.update(
                    prev.len() - 1,
                    prev.last().push(name@[i as int]),
                ));
            }
        }
        i = i + 1;
    }
    proof {
        assert(name@.take(n as int) =~= name@);
    }
    parts.push(chunk);
    proof {
        assert(views_of(parts@) =~~= spec_split(name@));
    }
    parts
}

/// Appends the bytes of `src` to `out`.
pub fn append_bytes(out: &mut Vec<u8>, src: &Vec<u8>)
    ensures
        final(out)@ == old(out)@ + src@,
{
    let n = src.len();
    let mut i: usize = 0;
    while i < n
        invariant
            n == src@.len(),
            0 <= i <= n,
            out@ == old(out)@ + src@.take(i as int),
        decreases n - i,
    {
        out.push(src[i]);
        proof {
            assert(old(out)@ + src@.take(i as int + 1) =~= (old(out)@ + src@.take(i as int)).push(
                src@[i as int],
            ));
        }
        i = i + 1;
    }
    proof {
        assert(src@.take(n as int) =~= src@);
    }
}

/// The primary domain of a name: its last two labels reassembled with the
/// separator, or nothing when the name has fewer than two labels.
pub fn get_primary_domain(name: &Vec<u8>) -> (r: Option<Vec<u8>>)
    ensures
        match r {
            Some(p) => spec_split(name@).len() >= 2 && p@ == spec_primary(name@),
            None => spec_split(name@).len() < 2,
        },
{
    let parts = split_domain_name(name);
    let count = parts.len();
    if count < 2 {
        return None;
    }
    let mut out: Vec<u8> = Vec::new();
    append_bytes(&mut out, &parts[count - 2]);
    out.push(SEPARATOR);
    append_bytes(&mut out, &parts[count - 1]);
    proof {
        let p = spec_split(name@);
        assert(views_of(parts@)[count - 2] == p[p.len() - 2]);
        assert(views_of(parts@)[count - 1] == p[p.len() - 1]);
        assert(out@ =~= spec_primary(name@));
    }
    Some(out)
}

} // verus!

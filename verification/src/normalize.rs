use vstd::prelude::*;
use crate::text::{chars_of, matches_at, split_on, string_from_chars};

verus! {

/// What `str::to_uppercase` returns for a given character sequence.
/// Relied upon as a pure function of the characters alone.
pub uninterp spec fn upper_of(s: Seq<char>) -> Seq<char>;

/// Relies on `str::to_uppercase`: Unicode uppercasing, a function of
/// the input characters alone (no locale, no environment).
#[verifier::external_body]
fn to_upper(s: &str) -> (r: String)
    ensures
        r@ == upper_of(s@),
{
    s.to_uppercase()
}

/// `s` with every non-overlapping occurrence of `pat`, scanned left
/// to right, replaced by `rep`.
pub open spec fn replace_pat(s: Seq<char>, pat: Seq<char>, rep: Seq<char>) -> Seq<char>
    decreases s.len(),
{
    if s.len() == 0 {
        s
    } else if 0 < pat.len() <= s.len() && s.take(pat.len() as int) == pat {
        rep + replace_pat(s.skip(pat.len() as int), pat, rep)
    } else {
        seq![s[0]] + replace_pat(s.skip(1), pat, rep)
    }
}

/// The separator characters that normalization turns into spaces.
pub open spec fn squash_char(c: char) -> char {
    if c == '-' || c == '/' || c == '\'' {
        ' '
    } else {
        c
    }
}

/// The pure text transform of normalization, applied after
/// uppercasing: the sequences " - " and " / " collapse to one space,
/// then every remaining '-', '/' and '\'' becomes a space.
pub open spec fn cleaned(s: Seq<char>) -> Seq<char> {
    replace_pat(replace_pat(s, seq![' ', '-', ' '], seq![' ']), seq![' ', '/', ' '], seq![' '])
        .map_values(|c: char| squash_char(c))
}

/// First-match lookup in an alias list.
pub open spec fn alias_lookup(al: Seq<(Seq<char>, Seq<char>)>, k: Seq<char>) -> Option<Seq<char>>
    decreases al.len(),
{
    if al.len() == 0 {
        None
    } else if al[0].0 == k {
        Some(al[0].1)
    } else {
        alias_lookup(al.skip(1), k)
    }
}

/// What normalization returns: the cleaned, uppercased text,
/// substituted by its alias when the alias table knows it exactly.
pub open spec fn normalize_spec(al: Seq<(Seq<char>, Seq<char>)>, s: Seq<char>) -> Seq<char> {
    let t = cleaned(upper_of(s));
    match alias_lookup(al, t) {
        Some(v) => v,
        None => t,
    }
}

/// `al` with the binding for `k` replaced in place, or appended when
/// `k` is new — the update rule of the alias table, one line at a
/// time.
pub open spec fn upsert(
    al: Seq<(Seq<char>, Seq<char>)>,
    k: Seq<char>,
    v: Seq<char>,
) -> Seq<(Seq<char>, Seq<char>)>
    decreases al.len(),
{
    if al.len() == 0 {
        seq![(k, v)]
    } else if al[0].0 == k {
        seq![(k, v)] + al.skip(1)
    } else {
        seq![al[0]] + upsert(al.skip(1), k, v)
    }
}

/// The alias table denoted by the lines of the alias file: a line
/// that splits at ',' into exactly two columns binds column one to
/// column two; any other line is skipped.
pub open spec fn aliases_from_lines(lines: Seq<Seq<char>>) -> Seq<(Seq<char>, Seq<char>)>
    decreases lines.len(),
{
    if lines.len() == 0 {
        Seq::empty()
    } else {
        let prev = aliases_from_lines(lines.drop_last());
        let toks = split_on(lines.last(), ',');
        if toks.len() == 2 {
            upsert(prev, toks[0], toks[1])
        } else {
            prev
        }
    }
}

/// The views of an alias list's entries.
pub open spec fn alias_views(s: Seq<(String, String)>) -> Seq<(Seq<char>, Seq<char>)> {
    s.map_values(|p: (String, String)| (p.0@, p.1@))
}

/// Canonicalizes free-text station names with a fixed text transform
/// and an alias table loaded once at startup.
pub struct NameNormalizer {
    aliases: Vec<(String, String)>,
}

impl View for NameNormalizer {
    type V = Seq<(Seq<char>, Seq<char>)>;

    closed spec fn view(&self) -> Seq<(Seq<char>, Seq<char>)> {
        alias_views(self.aliases@)
    }
}

proof fn lemma_upsert_replace(al: Seq<(Seq<char>, Seq<char>)>, i: int, v: Seq<char>)
    requires
        0 <= i < al.len(),
        forall|j: int| #![trigger al[j]] 0 <= j < i ==> al[j].0 != al[i].0,
    ensures
        upsert(al, al[i].0, v) =~= al.update(i, (al[i].0, v)),
    decreases al.len(),
{
    if i == 0 {
        assert(seq![(al[0].0, v)] + al.skip(1) =~= al.update(0, (al[0].0, v)));
    } else {
        assert(al[0].0 != al[i].0);
        assert forall|j: int| 0 <= j < i - 1 implies #[trigger] al.skip(1)[j].0 != al.skip(
            1,
        )[i - 1].0 by {
            assert(al.skip(1)[j] == al[j + 1]);
            assert(al.skip(1)[i - 1] == al[i]);
        }
        lemma_upsert_replace(al.skip(1), i - 1, v);
        assert(seq![al[0]] + al.skip(1).update(i - 1, (al[i].0, v)) =~= al.update(
            i,
            (al[i].0, v),
        ));
    }
}

proof fn lemma_upsert_append(al: Seq<(Seq<char>, Seq<char>)>, k: Seq<char>, v: Seq<char>)
    requires
        forall|j: int| #![trigger al[j]] 0 <= j < al.len() ==> al[j].0 != k,
    ensures
        upsert(al, k, v) =~= al.push((k, v)),
    decreases al.len(),
{
    if al.len() > 0 {
        assert forall|j: int| 0 <= j < al.skip(1).len() implies #[trigger] al.skip(1)[j].0
            != k by {
            assert(al.skip(1)[j] == al[j + 1]);
        }
        lemma_upsert_append(al.skip(1), k, v);
        assert(seq![al[0]] + al.skip(1).push((k, v)) =~= al.push((k, v)));
    }
}

impl NameNormalizer {
    /// Builds the alias table from the lines of the two-column alias
    /// list.  A line that does not split into exactly two columns is
    /// skipped; reading the file at all is the caller's concern.
    pub fn from_lines(lines: &Vec<String>) -> (r: NameNormalizer)
        ensures
            r@ == aliases_from_lines(crate::text::views(lines@)),
    {
        let mut aliases: Vec<(String, String)> = Vec::new();
        let mut i: usize = 0;
        proof {
            assert(crate::text::views(lines@).take(0) =~= Seq::<Seq<char>>::empty());
            assert(alias_views(aliases@) =~= Seq::<(
                Seq<char>,
                Seq<char>,
            )>::empty());
        }
        while i < lines.len()
            invariant
                0 <= i <= lines.len(),
                alias_views(aliases@) == aliases_from_lines(
                    crate::text::views(lines@).take(i as int),
                ),
            decreases lines.len() - i,
        {
            let mut toks = crate::text::tokenize_string(lines[i].as_str(), ',');
            proof {
                let lv = crate::text::views(lines@);
                assert(lv.take(i + 1).drop_last() =~= lv.take(i as int));
                assert(lv.take(i + 1).last() == lv[i as int]);
                assert(lv[i as int] == lines@[i as int]@);
            }
            if toks.len() == 2 {
                let value = toks.pop().unwrap();
                let key = toks.pop().unwrap();
                proof {
                    let tv = crate::text::views(lines@)[i as int];
                    assert(key@ == split_on(tv, ',')[0]);
                    assert(value@ == split_on(tv, ',')[1]);
                }
                Self::upsert_exec(&mut aliases, key, value);
            }
            i += 1;
        }
        proof {
            assert(crate::text::views(lines@).take(lines@.len() as int) =~= crate::text::views(
                lines@,
            ));
        }
        NameNormalizer { aliases }
    }

    /// Replaces the binding for `key` in place, or appends it.
    fn upsert_exec(aliases: &mut Vec<(String, String)>, key: String, value: String)
        ensures
            alias_views(final(aliases)@) =~= upsert(
                alias_views(old(aliases)@),
                key@,
                value@,
            ),
    {
        let ghost al = alias_views(aliases@);
        let mut i: usize = 0;
        while i < aliases.len()
            invariant
                0 <= i <= aliases@.len(),
                al == alias_views(aliases@),
                al == alias_views(old(aliases)@),
                forall|j: int| #![trigger al[j]] 0 <= j < i ==> al[j].0 != key@,
            decreases aliases@.len() - i,
        {
            if aliases[i].0 == key {
                proof {
                    assert(al[i as int].0 == key@);
                    lemma_upsert_replace(al, i as int, value@);
                }
                let ghost pre = aliases@;
                aliases.remove(i);
                aliases.insert(i, (key, value));
                proof {
                    assert(aliases@ =~= pre.update(i as int, aliases@[i as int]));
                    assert(alias_views(aliases@) =~= al.update(i as int, (aliases@[i as int].0@, aliases@[i as int].1@)));
                    assert(upsert(al, key@, value@) =~= al.update(
                        i as int,
                        (al[i as int].0, aliases@[i as int].1@),
                    ));
                }
                return ;
            }
            i += 1;
        }
        proof {
            lemma_upsert_append(al, key@, value@);
        }
        aliases.push((key, value));
        proof {
            assert(alias_views(aliases@) =~= al.push(
                (key@, value@),
            ));
        }
    }

    /// Canonicalizes a station name: uppercase, collapse the
    /// separator patterns to spaces, then substitute the alias when
    /// the result matches an alias key exactly.
    pub fn normalize(&self, name: &str) -> (r: String)
        ensures
            r@ == normalize_spec(self@, name@),
    {
        let up = to_upper(name);
        let v = chars_of(up.as_str());
        let mut pat1: Vec<char> = Vec::new();
        pat1.push(' ');
        pat1.push('-');
        pat1.push(' ');
        proof {
            assert(pat1@ =~= seq![' ', '-', ' ']);
        }
        let v1 = replace_pattern(&v, &pat1, ' ');
        let mut pat2: Vec<char> = Vec::new();
        pat2.push(' ');
        pat2.push('/');
        pat2.push(' ');
        proof {
            assert(pat2@ =~= seq![' ', '/', ' ']);
        }
        let v2 = replace_pattern(&v1, &pat2, ' ');
        let mut v3: Vec<char> = Vec::new();
        let mut i: usize = 0;
        while i < v2.len()
            invariant
                0 <= i <= v2@.len(),
                v3@ == v2@.take(i as int).map_values(|c: char| squash_char(c)),
            decreases v2@.len() - i,
        {
            let c = v2[i];
            if c == '-' || c == '/' || c == '\'' {
                v3.push(' ');
            } else {
                v3.push(c);
            }
            proof {
                assert(v3@ =~= v2@.take(i + 1).map_values(|c: char| squash_char(c)));
            }
            i += 1;
        }
        proof {
            assert(v2@.take(v2@.len() as int) =~= v2@);
        }
        let t = string_from_chars(&v3);
        let mut j: usize = 0;
        let ghost al = self@;
        while j < self.aliases.len()
            invariant
                0 <= j <= self.aliases@.len(),
                al == self@,
                t@ == cleaned(upper_of(name@)),
                forall|k: int| #![trigger al[k]] 0 <= k < j ==> al[k].0 != t@,
            decreases self.aliases@.len() - j,
        {
            if self.aliases[j].0 == t {
                proof {
                    lemma_alias_lookup_found(al, j as int, t@);
                }
                return self.aliases[j].1.clone();
            }
            j += 1;
        }
        proof {
            lemma_alias_lookup_absent(al, t@);
        }
        t
    }
}

proof fn lemma_alias_lookup_found(al: Seq<(Seq<char>, Seq<char>)>, i: int, k: Seq<char>)
    requires
        0 <= i < al.len(),
        al[i].0 == k,
        forall|j: int| #![trigger al[j]] 0 <= j < i ==> al[j].0 != k,
    ensures
        alias_lookup(al, k) == Some(al[i].1),
    decreases i,
{
    if i > 0 {
        assert forall|j: int| 0 <= j < i - 1 implies #[trigger] al.skip(1)[j].0 != k by {
            assert(al.skip(1)[j] == al[j + 1]);
        }
        assert(al.skip(1)[i - 1] == al[i]);
        lemma_alias_lookup_found(al.skip(1), i - 1, k);
    }
}

proof fn lemma_alias_lookup_absent(al: Seq<(Seq<char>, Seq<char>)>, k: Seq<char>)
    requires
        forall|j: int| #![trigger al[j]] 0 <= j < al.len() ==> al[j].0 != k,
    ensures
        alias_lookup(al, k) is None,
    decreases al.len(),
{
    if al.len() > 0 {
        assert forall|j: int| 0 <= j < al.skip(1).len() implies #[trigger] al.skip(1)[j].0
            != k by {
            assert(al.skip(1)[j] == al[j + 1]);
        }
        lemma_alias_lookup_absent(al.skip(1), k);
    }
}

/// `v` with every non-overlapping occurrence of `pat` replaced by the
/// single character `rep`, scanning left to right.
pub fn replace_pattern(v: &Vec<char>, pat: &Vec<char>, rep: char) -> (r: Vec<char>)
    requires
        pat.len() >= 1,
    ensures
        r@ == replace_pat(v@, pat@, seq![rep]),
{
    let mut out: Vec<char> = Vec::new();
    let mut i: usize = 0;
    proof {
        assert(v@.skip(0) =~= v@);
        assert(out@ + replace_pat(v@, pat@, seq![rep]) =~= replace_pat(v@, pat@, seq![rep]));
    }
    while i < v.len()
        invariant
            0 <= i <= v.len(),
            pat.len() >= 1,
            replace_pat(v@, pat@, seq![rep]) == out@ + replace_pat(
                v@.skip(i as int),
                pat@,
                seq![rep],
            ),
        decreases v.len() - i,
    {
        let ghost rest = v@.skip(i as int);
        if pat.len() <= v.len() - i && matches_at(v, pat, i) {
            proof {
                assert(rest.take(pat@.len() as int) =~= v@.subrange(
                    i as int,
                    i + pat@.len() as int,
                ));
                assert(rest.skip(pat@.len() as int) =~= v@.skip(i + pat@.len()));
                assert(replace_pat(rest, pat@, seq![rep]) == seq![rep] + replace_pat(
                    v@.skip(i + pat@.len()),
                    pat@,
                    seq![rep],
                ));
                assert(out@ + (seq![rep] + replace_pat(v@.skip(i + pat@.len()), pat@, seq![rep]))
                    =~= out@.push(rep) + replace_pat(v@.skip(i + pat@.len()), pat@, seq![rep]));
            }
            out.push(rep);
            i += pat.len();
        } else {
            proof {
                if 0 < pat@.len() <= rest.len() {
                    assert(rest.take(pat@.len() as int) =~= v@.subrange(
                        i as int,
                        i + pat@.len() as int,
                    ));
                }
                assert(rest.skip(1) =~= v@.skip(i + 1));
                assert(rest[0] == v@[i as int]);
                assert(replace_pat(rest, pat@, seq![rep]) == seq![v@[i as int]] + replace_pat(
                    v@.skip(i + 1),
                    pat@,
                    seq![rep],
                ));
                assert(out@ + (seq![v@[i as int]] + replace_pat(v@.skip(i + 1), pat@, seq![rep]))
                    =~= out@.push(v@[i as int]) + replace_pat(v@.skip(i + 1), pat@, seq![rep]));
            }
            let c = v[i];
            out.push(c);
            i += 1;
        }
    }
    proof {
        assert(v@.skip(v@.len() as int) =~= Seq::<char>::empty());
        assert(out@ + Seq::<char>::empty() =~= out@);
    }
    out
}

} // verus!

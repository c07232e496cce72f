//! Stop identifiers and the reversible transform between their three
//! written forms: the provider form (`STIF:StopPoint:Q:<id>:`), the GTFS
//! form (`IDFM:<id>`) and the bare numeric core.

use vstd::prelude::*;
use vstd::string::StrSliceExecFns;
use vstd::string::StringExecFns;

verus! {

pub open spec fn prim_prefix() -> Seq<char> {
    "STIF:StopPoint:Q:"@
}

pub open spec fn gtfs_prefix() -> Seq<char> {
    "IDFM:"@
}

pub open spec fn colon() -> Seq<char> {
    ":"@
}

pub open spec fn starts_with(s: Seq<char>, p: Seq<char>) -> bool {
    s.len() >= p.len() && s.subrange(0, p.len() as int) == p
}

pub open spec fn ends_with(s: Seq<char>, p: Seq<char>) -> bool {
    s.len() >= p.len() && s.subrange(s.len() - p.len(), s.len() as int) == p
}

/// `s` with every leading repetition of `p` removed.
pub open spec fn strip_prefix_rep(s: Seq<char>, p: Seq<char>) -> Seq<char>
    decreases s.len(),
{
    if p.len() > 0 && starts_with(s, p) {
        strip_prefix_rep(s.skip(p.len() as int), p)
    } else {
        s
    }
}

/// `s` with every trailing repetition of `p` removed.
pub open spec fn strip_suffix_rep(s: Seq<char>, p: Seq<char>) -> Seq<char>
    decreases s.len(),
{
    if p.len() > 0 && ends_with(s, p) {
        strip_suffix_rep(s.take(s.len() - p.len()), p)
    } else {
        s
    }
}

/// The canonical core of any written form of a stop identifier: leading
/// provider-prefix repetitions stripped, then leading GTFS-prefix
/// repetitions, then trailing colons.
pub open spec fn canonical_id(s: Seq<char>) -> Seq<char> {
    strip_suffix_rep(strip_prefix_rep(strip_prefix_rep(s, prim_prefix()), gtfs_prefix()), colon())
}

fn starts_with_exec(s: &str, p: &str) -> (r: bool)
    ensures
        r == starts_with(s@, p@),
{
    let sl = s.unicode_len();
    let pl = p.unicode_len();
    if sl < pl {
        return false;
    }
    let mut i: usize = 0;
    while i < pl
        invariant
            0 <= i <= pl,
            pl == p@.len(),
            sl == s@.len(),
            pl <= sl,
            forall|j: int| 0 <= j < i ==> s@[j] == p@[j],
        decreases pl - i,
    {
        if s.get_char(i) != p.get_char(i) {
            proof {
                assert(s@.subrange(0, pl as int)[i as int] == s@[i as int]);
            }
            return false;
        }
        i += 1;
    }
    proof {
        assert(s@.subrange(0, pl as int) =~= p@);
    }
    true
}

fn ends_with_exec(s: &str, p: &str) -> (r: bool)
    ensures
        r == ends_with(s@, p@),
{
    let sl = s.unicode_len();
    let pl = p.unicode_len();
    if sl < pl {
        return false;
    }
    let base = sl - pl;
    let mut i: usize = 0;
    while i < pl
        invariant
            0 <= i <= pl,
            pl == p@.len(),
            sl == s@.len(),
            pl <= sl,
            base == sl - pl,
            forall|j: int| 0 <= j < i ==> s@[base + j] == p@[j],
        decreases pl - i,
    {
        if s.get_char(base + i) != p.get_char(i) {
            proof {
                assert(s@.subrange(s@.len() - p@.len(), s@.len() as int)[i as int] == s@[
                    base + i
                ]);
            }
            return false;
        }
        i += 1;
    }
    proof {
        assert(s@.subrange(s@.len() - p@.len(), s@.len() as int) =~= p@);
    }
    true
}

fn strip_prefix_rep_exec<'a>(s: &'a str, p: &str) -> (r: &'a str)
    ensures
        r@ == strip_prefix_rep(s@, p@),
{
    let mut cur: &str = s;
    loop
        invariant_except_break
            strip_prefix_rep(cur@, p@) == strip_prefix_rep(s@, p@),
        ensures
            cur@ == strip_prefix_rep(s@, p@),
        decreases cur@.len(),
    {
        let pl = p.unicode_len();
        let cl = cur.unicode_len();
        if pl == 0 || !starts_with_exec(cur, p) {
            proof {
                assert(strip_prefix_rep(cur@, p@) == cur@);
            }
            break ;
        }
        let next = cur.substring_char(pl, cl);
        proof {
            assert(next@ =~= cur@.skip(p@.len() as int));
            assert(strip_prefix_rep(cur@, p@) == strip_prefix_rep(next@, p@));
        }
        cur = next;
    }
    cur
}

fn strip_suffix_rep_exec<'a>(s: &'a str, p: &str) -> (r: &'a str)
    ensures
        r@ == strip_suffix_rep(s@, p@),
{
    let mut cur: &str = s;
    loop
        invariant_except_break
            strip_suffix_rep(cur@, p@) == strip_suffix_rep(s@, p@),
        ensures
            cur@ == strip_suffix_rep(s@, p@),
        decreases cur@.len(),
    {
        let pl = p.unicode_len();
        let cl = cur.unicode_len();
        if pl == 0 || !ends_with_exec(cur, p) {
            proof {
                assert(strip_suffix_rep(cur@, p@) == cur@);
            }
            break ;
        }
        let next = cur.substring_char(0, cl - pl);
        proof {
            assert(next@ =~= cur@.take(cur@.len() - p@.len()));
            assert(strip_suffix_rep(cur@, p@) == strip_suffix_rep(next@, p@));
        }
        cur = next;
    }
    cur
}

/// An internal stop identifier, held in its canonical bare form.
#[derive(Debug)]
pub struct StopId {
    id: String,
}

impl View for StopId {
    type V = Seq<char>;

    closed spec fn view(&self) -> Seq<char> {
        self.id@
    }
}

impl PartialEq for StopId {
    fn eq(&self, other: &StopId) -> (r: bool) {
        str_eq_owned(&self.id, &other.id)
    }
}

impl vstd::std_specs::cmp::PartialEqSpecImpl for StopId {
    open spec fn obeys_eq_spec() -> bool {
        true
    }

    open spec fn eq_spec(&self, other: &StopId) -> bool {
        self@ == other@
    }
}

impl Eq for StopId {

}

fn str_eq_owned(a: &String, b: &String) -> (r: bool)
    ensures
        r == (a@ == b@),
{
    crate::text::str_eq(a.as_str(), b.as_str())
}

impl StopId {
    /// Parses any written form — provider, GTFS or bare, with or without a
    /// trailing colon — to the canonical core.
    pub fn from_string(s: &str) -> (r: StopId)
        ensures
            r@ == canonical_id(s@),
    {
        let t1 = strip_prefix_rep_exec(s, "STIF:StopPoint:Q:");
        let t2 = strip_prefix_rep_exec(t1, "IDFM:");
        let t3 = strip_suffix_rep_exec(t2, ":");
        StopId { id: t3.to_owned() }
    }

    /// The bare numeric core: the stored identifier with any leading
    /// provider prefix and trailing colons stripped once more.
    pub fn bare<'a>(&'a self) -> (r: &'a str)
        ensures
            r@ == strip_suffix_rep(strip_prefix_rep(self@, prim_prefix()), colon()),
    {
        let t = strip_prefix_rep_exec(self.id.as_str(), "STIF:StopPoint:Q:");
        strip_suffix_rep_exec(t, ":")
    }

    /// The GTFS form: the GTFS prefix before the stored identifier.
    pub fn gtfs(&self) -> (r: String)
        ensures
            r@ == gtfs_prefix() + self@,
    {
        let mut out = "IDFM:".to_owned();
        out.append(self.id.as_str());
        out
    }

    /// The provider form: the provider prefix before the stored identifier
    /// and a colon after it.
    pub fn prim(&self) -> (r: String)
        ensures
            r@ == prim_prefix() + self@ + colon(),
    {
        let mut out = "STIF:StopPoint:Q:".to_owned();
        out.append(self.id.as_str());
        out.append(":");
        out
    }
}

/// No character of `s` is a colon.
pub open spec fn colon_free(s: Seq<char>) -> bool {
    forall|k: int| 0 <= k < s.len() ==> s[k] != ':'
}

/// The identifier transform is reversible: for any colon-free core other
/// than the bare letters of the GTFS prefix, parsing the provider form,
/// the GTFS form or the bare form returns exactly that core, and taking
/// the bare form of a stored core returns it unchanged.
pub proof fn lemma_stop_id_round_trip(c: Seq<char>)
    requires
        colon_free(c),
        c != "IDFM"@,
    ensures
        canonical_id(prim_prefix() + c + colon()) == c,
        canonical_id(gtfs_prefix() + c) == c,
        canonical_id(c) == c,
        strip_suffix_rep(strip_prefix_rep(c, prim_prefix()), colon()) == c,
{
    reveal_strlit("STIF:StopPoint:Q:");
    reveal_strlit("IDFM:");
    reveal_strlit(":");
    reveal_strlit("IDFM");
    let prim = prim_prefix();
    let gtfs = gtfs_prefix();
    let col = colon();
    assert(prim.len() == 17 && gtfs.len() == 5 && col.len() == 1);
    assert(prim[0] == 'S' && prim[4] == ':');
    assert(gtfs[0] == 'I' && gtfs[4] == ':');
    assert(col[0] == ':');

    // A colon-free string starts with neither prefix and has no colon at
    // its end, so every strip leaves it unchanged.
    assert(!starts_with(c, prim)) by {
        if starts_with(c, prim) {
            assert(c.subrange(0, 17)[4] == prim[4]);
            assert(c[4] == ':');
        }
    }
    assert(!starts_with(c, gtfs)) by {
        if starts_with(c, gtfs) {
            assert(c.subrange(0, 5)[4] == gtfs[4]);
            assert(c[4] == ':');
        }
    }
    assert(!ends_with(c, col)) by {
        if ends_with(c, col) {
            assert(c.subrange(c.len() - 1, c.len() as int)[0] == col[0]);
            assert(c[c.len() - 1] == ':');
        }
    }
    assert(strip_prefix_rep(c, prim) == c);
    assert(strip_prefix_rep(c, gtfs) == c);
    assert(strip_suffix_rep(c, col) == c);

    // The GTFS form: the one GTFS prefix is stripped and nothing else.
    let g = gtfs + c;
    assert(!starts_with(g, prim)) by {
        if starts_with(g, prim) {
            assert(g.subrange(0, 17)[0] == prim[0]);
            assert(g[0] == gtfs[0]);
        }
    }
    assert(strip_prefix_rep(g, prim) == g);
    assert(starts_with(g, gtfs)) by {
        assert(g.subrange(0, 5) =~= gtfs);
    }
    assert(g.skip(5) =~= c);
    assert(strip_prefix_rep(g, gtfs) == strip_prefix_rep(c, gtfs));
    assert(canonical_id(g) == c);

    // The provider form: the one provider prefix and the one trailing
    // colon are stripped and nothing else.
    let pform = prim + c + col;
    let tail = c + col;
    assert(pform.subrange(0, 17) =~= prim);
    assert(starts_with(pform, prim));
    assert(pform.skip(17) =~= tail);
    assert(!starts_with(tail, prim)) by {
        if starts_with(tail, prim) {
            assert(tail.subrange(0, 17)[4] == prim[4]);
            assert(tail[4] == ':');
            assert(c.len() >= 16);
            assert(tail[4] == c[4]);
        }
    }
    assert(strip_prefix_rep(pform, prim) == strip_prefix_rep(tail, prim));
    assert(strip_prefix_rep(tail, prim) == tail);
    assert(!starts_with(tail, gtfs)) by {
        if starts_with(tail, gtfs) {
            assert(tail.subrange(0, 5)[4] == gtfs[4]);
            assert(tail[4] == ':');
            if c.len() >= 5 {
                assert(tail[4] == c[4]);
                assert(false);
            } else {
                assert(tail.len() >= 5);
                assert(c.len() == 4);
                assert(tail.subrange(0, 5)[0] == gtfs[0]);
                assert(tail.subrange(0, 5)[1] == gtfs[1]);
                assert(tail.subrange(0, 5)[2] == gtfs[2]);
                assert(tail.subrange(0, 5)[3] == gtfs[3]);
                assert(c =~= "IDFM"@);
            }
        }
    }
    assert(strip_prefix_rep(tail, gtfs) == tail);
    assert(ends_with(tail, col)) by {
        assert(tail.subrange(tail.len() - 1, tail.len() as int) =~= col);
    }
    assert(tail.take(tail.len() - 1) =~= c);
    assert(strip_suffix_rep(tail, col) == strip_suffix_rep(c, col));
    assert(canonical_id(pform) == c);
}

/// Parse failure marker; parsing a stop identifier never actually fails.
#[derive(Debug)]
pub struct StopIdParseError;

impl std::str::FromStr for StopId {
    type Err = StopIdParseError;

    fn from_str(s: &str) -> Result<StopId, StopIdParseError> {
        Ok(StopId::from_string(s))
    }
}

} // verus!

//! Monitor configuration: identity rules, each with a brightness curve, kept
//! in priority order. A rule's specificity rank orders the list; a stable sort
//! keeps the original file order as the tiebreak among equal ranks, so a
//! linear scan finds the most specific applicable rule first.

use vstd::prelude::*;

verus! {

broadcast use vstd::seq_lib::group_to_multiset_ensures;

/// How a configuration rule identifies the display it applies to.
#[derive(Debug, PartialEq)]
pub enum MonitorId {
    /// Applies to every display.
    Default,
    /// The I2C bus number the display is connected on.
    I2cBus(u32),
    /// Manufacturer and model strings, compared exactly.
    Model(String, String),
    /// Serial number string, compared exactly.
    Serial(String),
    /// Manufacturer, model and serial number, compared exactly.
    ModelSerial(String, String, String),
}

impl MonitorId {
    /// Specificity rank: smaller is more specific, and more specific rules
    /// sort first.
    pub open spec fn spec_rank(&self) -> int {
        match self {
            MonitorId::I2cBus(_) => 0,
            MonitorId::ModelSerial(_, _, _) => 10,
            MonitorId::Serial(_) => 11,
            MonitorId::Model(_, _) => 20,
            MonitorId::Default => 100,
        }
    }

    pub fn rank(&self) -> (r: u32)
        ensures
            r == self.spec_rank(),
    {
        match self {
            MonitorId::I2cBus(_) => 0,
            MonitorId::ModelSerial(_, _, _) => 10,
            MonitorId::Serial(_) => 11,
            MonitorId::Model(_, _) => 20,
            MonitorId::Default => 100,
        }
    }
}

/// One configuration rule: which displays it applies to, and the brightness
/// curve breakpoints to use for them.
#[derive(Debug, PartialEq)]
pub struct MonitorConfig {
    pub identifier: MonitorId,
    pub curve: Vec<(u32, u32)>,
}

/// The parsed monitor configuration: a list of rules.
#[derive(Debug, PartialEq)]
pub struct Config {
    pub monitors: Vec<MonitorConfig>,
}

/// Entries ascend by specificity rank.
pub open spec fn sorted_by_rank(s: Seq<MonitorConfig>) -> bool {
    forall|i: int, j: int| 0 <= i < j < s.len() ==> (#[trigger] s[i]).identifier.spec_rank() <= (
    #[trigger] s[j]).identifier.spec_rank()
}

/// Insert an entry into a rank-ordered list, after every entry of equal or
/// lower rank, so that among equal ranks earlier entries keep their place.
pub open spec fn insert_by_rank(s: Seq<MonitorConfig>, m: MonitorConfig) -> Seq<MonitorConfig>
    decreases s.len(),
{
    if s.len() == 0 {
        seq![m]
    } else if m.identifier.spec_rank() < s[0].identifier.spec_rank() {
        seq![m] + s
    } else {
        seq![s[0]] + insert_by_rank(s.drop_first(), m)
    }
}

/// The stable sort of configuration entries by specificity rank: each entry,
/// in original order, is inserted after every already-placed entry of equal or
/// lower rank.
pub open spec fn sort_by_rank(s: Seq<MonitorConfig>) -> Seq<MonitorConfig>
    decreases s.len(),
{
    if s.len() == 0 {
        Seq::empty()
    } else {
        insert_by_rank(sort_by_rank(s.drop_last()), s.last())
    }
}

/// Inserting at the first position whose rank exceeds the new entry's rank is
/// exactly `insert_by_rank`.
proof fn lemma_insert_by_rank_at(s: Seq<MonitorConfig>, m: MonitorConfig, j: int)
    requires
        0 <= j <= s.len(),
        forall|k: int| 0 <= k < j ==> (#[trigger] s[k]).identifier.spec_rank()
            <= m.identifier.spec_rank(),
        j < s.len() ==> m.identifier.spec_rank() < s[j].identifier.spec_rank(),
    ensures
        insert_by_rank(s, m) == s.insert(j, m),
    decreases s.len(),
{
    if j == 0 {
        if s.len() == 0 {
            assert(insert_by_rank(s, m) =~= s.insert(0, m));
        } else {
            assert(insert_by_rank(s, m) =~= s.insert(0, m));
        }
    } else {
        assert(s[0].identifier.spec_rank() <= m.identifier.spec_rank());
        lemma_insert_by_rank_at(s.drop_first(), m, j - 1);
        assert(insert_by_rank(s, m) =~= s.insert(j, m));
    }
}

/// `insert_by_rank` adds exactly the new entry and keeps the order by rank.
pub proof fn lemma_insert_by_rank_props(s: Seq<MonitorConfig>, m: MonitorConfig)
    ensures
        insert_by_rank(s, m).to_multiset() == s.to_multiset().insert(m),
        insert_by_rank(s, m).len() == s.len() + 1,
        sorted_by_rank(s) ==> sorted_by_rank(insert_by_rank(s, m)),
    decreases s.len(),
{
    broadcast use vstd::seq_lib::group_to_multiset_ensures;

    if s.len() == 0 {
        assert(insert_by_rank(s, m) =~= Seq::empty().push(m));
        assert(insert_by_rank(s, m).to_multiset() =~= s.to_multiset().insert(m));
    } else if m.identifier.spec_rank() < s[0].identifier.spec_rank() {
        let r = insert_by_rank(s, m);
        assert(r =~= s.insert(0, m));
        assert(r.to_multiset() == s.to_multiset().insert(m));
        if sorted_by_rank(s) {
            assert forall|i: int, j: int| 0 <= i < j < r.len() implies (
            #[trigger] r[i]).identifier.spec_rank() <= (#[trigger] r[j]).identifier.spec_rank() by {
                if i > 0 {
                    assert(r[i] == s[i - 1] && r[j] == s[j - 1]);
                } else {
                    assert(r[j] == s[j - 1]);
                    if j > 1 {
                        assert(s[0].identifier.spec_rank() <= s[j - 1].identifier.spec_rank());
                    }
                }
            }
        }
    } else {
        lemma_insert_by_rank_props(s.drop_first(), m);
        let r = insert_by_rank(s, m);
        let rt = insert_by_rank(s.drop_first(), m);
        assert(r =~= s.subrange(0, 1) + rt);
        assert(r =~= rt.insert(0, s[0]));
        assert(r.to_multiset() == rt.to_multiset().insert(s[0]));
        assert(s.to_multiset() =~= s.drop_first().to_multiset().insert(s[0])) by {
            assert(s =~= s.drop_first().insert(0, s[0]));
        }
        assert(r.to_multiset() =~= s.to_multiset().insert(m));
        if sorted_by_rank(s) {
            assert(sorted_by_rank(s.drop_first())) by {
                assert forall|i: int, j: int| 0 <= i < j < s.drop_first().len() implies (
                #[trigger] s.drop_first()[i]).identifier.spec_rank() <= (
                #[trigger] s.drop_first()[j]).identifier.spec_rank() by {
                    assert(s[i + 1].identifier.spec_rank() <= s[j + 1].identifier.spec_rank());
                }
            }
            assert forall|i: int, j: int| 0 <= i < j < r.len() implies (
            #[trigger] r[i]).identifier.spec_rank() <= (#[trigger] r[j]).identifier.spec_rank() by {
                if i > 0 {
                    assert(r[i] == rt[i - 1] && r[j] == rt[j - 1]);
                } else {
                    assert(r[j] == rt[j - 1]);
                    assert(rt.to_multiset().count(rt[j - 1]) > 0);
                    let e = rt[j - 1];
                    if e == m {
                        assert(s[0].identifier.spec_rank() <= m.identifier.spec_rank());
                    } else {
                        assert(s.drop_first().to_multiset().count(e) > 0);
                        assert(s.drop_first().contains(e));
                        let k = choose|k: int|
                            0 <= k < s.drop_first().len() && s.drop_first()[k] == e;
                        assert(s[0].identifier.spec_rank() <= s[k + 1].identifier.spec_rank());
                    }
                }
            }
        }
    }
}

/// The stable rank sort is a permutation of its input and is ordered by rank.
pub proof fn lemma_sort_by_rank_props(s: Seq<MonitorConfig>)
    ensures
        sort_by_rank(s).to_multiset() == s.to_multiset(),
        sort_by_rank(s).len() == s.len(),
        sorted_by_rank(sort_by_rank(s)),
    decreases s.len(),
{
    broadcast use vstd::seq_lib::group_to_multiset_ensures;

    if s.len() == 0 {
        assert(sort_by_rank(s).to_multiset() =~= s.to_multiset());
    } else {
        lemma_sort_by_rank_props(s.drop_last());
        lemma_insert_by_rank_props(sort_by_rank(s.drop_last()), s.last());
        assert(s =~= s.drop_last().push(s.last()));
        assert(s.to_multiset() =~= s.drop_last().to_multiset().insert(s.last()));
    }
}

impl Config {
    /// Bring the configuration into matching order: entries sorted ascending
    /// by specificity rank, stably, so that the file order is the tiebreak
    /// among entries of equal rank.
    pub fn validate_and_normalize(self) -> (r: Config)
        ensures
            r.monitors@ == sort_by_rank(self.monitors@),
    {
        let Config { monitors } = self;
        let ghost orig = monitors@;
        let mut rest = monitors;
        let mut out: Vec<MonitorConfig> = Vec::new();
        let ghost k: int = 0;
        while rest.len() > 0
            invariant
                0 <= k <= orig.len(),
                k + rest@.len() == orig.len(),
                rest@ == orig.skip(k),
                out@ == sort_by_rank(orig.take(k)),
            decreases rest.len(),
        {
            let x = rest.remove(0);
            let ghost prev_out = out@;
            proof {
                assert(x == orig[k]);
                assert(rest@ =~= orig.skip(k + 1));
            }
            let xr = x.identifier.rank();
            let mut j: usize = 0;
            while j < out.len() && out[j].identifier.rank() <= xr
                invariant
                    j <= out.len(),
                    out@ == prev_out,
                    xr == x.identifier.spec_rank(),
                    forall|l: int| 0 <= l < j ==> (#[trigger] out@[l]).identifier.spec_rank()
                        <= x.identifier.spec_rank(),
                decreases out.len() - j,
            {
                j += 1;
            }
            out.insert(j, x);
            proof {
                lemma_insert_by_rank_at(prev_out, x, j as int);
                assert(orig.take(k + 1).drop_last() =~= orig.take(k));
                assert(orig.take(k + 1).last() == orig[k]);
                k = k + 1;
            }
        }
        proof {
            assert(orig.take(k) =~= orig);
        }
        Config { monitors: out }
    }
}

} // verus!

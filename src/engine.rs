//! The aggregation engine, one record at a time: check, split, group. The
//! statistics themselves are folded by the caller under the group number
//! that each record is given; the engine then lays out the report.
use crate::index::HashPolicy;
use crate::record::{key_part, lemma_split_parts, split_record, value_part, DELIMITER};
use crate::report::{
    all_text, is_text, is_utf8, ordered_entries, render_report, report_bytes, ReportError,
};
use crate::table::{is_sorted_order, lemma_sorted_order_unique, GroupTable};
use vstd::prelude::*;

verus! {

/// The engine's variants: one algorithm under different policies.
#[derive(Clone, Copy, Debug, PartialEq, Eq, Structural)]
pub enum Iteration {
    /// Each line is checked to be text as it is read; SipHash.
    Base,
    /// Lines stay bytes, keys are checked at report time; SipHash.
    ByteFileParsing,
    /// Lines stay bytes, keys are checked at report time; ahash.
    AhashHashFunction,
}

impl Iteration {
    /// Whether each line is checked to be text as it is read.
    pub open spec fn spec_checks_lines(self) -> bool {
        self == Iteration::Base
    }

    /// The hash function of the grouping table.
    pub open spec fn spec_policy(self) -> HashPolicy {
        match self {
            Iteration::AhashHashFunction => HashPolicy::Fast,
            _ => HashPolicy::Strong,
        }
    }

    pub fn policy(self) -> (r: HashPolicy)
        ensures
            r == self.spec_policy(),
    {
        match self {
            Iteration::AhashHashFunction => HashPolicy::Fast,
            _ => HashPolicy::Strong,
        }
    }
}

/// The groups after a record with key `k`: unchanged when `k` is known,
/// else with `k` appended.
pub open spec fn with_key(keys: Seq<Seq<u8>>, k: Seq<u8>) -> Seq<Seq<u8>> {
    if keys.contains(k) {
        keys
    } else {
        keys.push(k)
    }
}

/// Why a record is refused.
#[derive(Clone, Copy, Debug, PartialEq, Eq, Structural)]
pub enum RecordError {
    /// The line is not valid UTF-8 text (checked by the text variant only).
    NotText,
    /// The line holds no delimiter.
    MissingDelimiter,
}

/// The state of one run: the grouping table and the variant's policy.
pub struct Aggregator {
    table: GroupTable,
    check_lines: bool,
}

impl View for Aggregator {
    type V = Seq<Seq<u8>>;

    /// The keys of the groups, in order of first appearance.
    closed spec fn view(&self) -> Seq<Seq<u8>> {
        self.table@
    }
}

impl Aggregator {
    pub closed spec fn wf(&self) -> bool {
        self.table.wf()
    }

    /// Whether each line is checked to be text as it is read.
    pub closed spec fn checks_lines(&self) -> bool {
        self.check_lines
    }

    /// A run with no record yet.
    pub fn new(iteration: Iteration) -> (r: Aggregator)
        ensures
            r.wf(),
            r@ == Seq::<Seq<u8>>::empty(),
            r.checks_lines() == iteration.spec_checks_lines(),
    {
        let check_lines = match iteration {
            Iteration::Base => true,
            _ => false,
        };
        Aggregator { table: GroupTable::new(iteration.policy()), check_lines }
    }

    /// The number of groups.
    pub fn len(&self) -> (r: usize)
        ensures
            r == self@.len(),
    {
        self.table.len()
    }

    /// The key of group `g`.
    pub fn key(&self, g: usize) -> (r: &[u8])
        requires
            g < self@.len(),
        ensures
            r@ == self@[g as int],
    {
        self.table.key(g)
    }

    /// Takes one record: returns the group number of its key (opening a
    /// group for a new key) and its value segment, which the caller parses
    /// and folds into that group's statistic.
    pub fn ingest(&mut self, line: &[u8]) -> (r: Result<(usize, Vec<u8>), RecordError>)
        requires
            old(self).wf(),
            old(self)@.len() < usize::MAX,
        ensures
            final(self).wf(),
            final(self).checks_lines() == old(self).checks_lines(),
            r == Err::<(usize, Vec<u8>), RecordError>(RecordError::NotText) <==> old(
                self,
            ).checks_lines() && !is_utf8(line@),
            r == Err::<(usize, Vec<u8>), RecordError>(RecordError::MissingDelimiter) <==> (!old(
                self,
            ).checks_lines() || is_utf8(line@)) && !line@.contains(DELIMITER),
            r is Err ==> final(self)@ == old(self)@,
            r matches Ok((g, v)) ==> {
                &&& final(self)@ == with_key(old(self)@, key_part(line@))
                &&& g < final(self)@.len()
                &&& final(self)@[g as int] == key_part(line@)
                &&& v@ == value_part(line@)
            },
    {
        if self.check_lines && !is_text(line) {
            return Err(RecordError::NotText);
        }
        match split_record(line) {
            None => Err(RecordError::MissingDelimiter),
            Some((key, value)) => {
                proof {
                    lemma_split_parts(line@, key@, value@);
                }
                let g = self.table.observe(key.as_slice());
                Ok((g, value))
            },
        }
    }

    /// The report of the run, `stats[g]` being the formatted statistic of
    /// group `g`. It is the one layout of the groups by ascending key: it
    /// depends on the groups and their statistics alone.
    pub fn report(&self, stats: &Vec<Vec<u8>>) -> (r: Result<Vec<u8>, ReportError>)
        requires
            self.wf(),
            stats@.len() == self@.len(),
        ensures
            r is Err <==> !all_text(self@),
            exists|ord: Seq<usize>| is_sorted_order(self@, ord),
            r matches Ok(out) ==> forall|ord: Seq<usize>|
                #[trigger] is_sorted_order(self@, ord) ==> out@ == report_bytes(
                    ordered_entries(self@, stats@.map_values(|s: Vec<u8>| s@), ord),
                ),
    {
        let ord = self.table.sorted_order();
        let r = render_report(&self.table, stats, &ord);
        proof {
            self.table.lemma_keys_distinct();
            assert forall|o: Seq<usize>| #[trigger] is_sorted_order(self@, o) implies o == ord@ by {
                lemma_sorted_order_unique(self@, o, ord@);
            }
        }
        r
    }
}

} // verus!

//! The report: `{k1: s1, k2: s2, ...}`, keys ascending byte-wise, each key
//! followed by its formatted statistic.
use crate::table::{is_sorted_order, GroupTable};
use vstd::prelude::*;

verus! {

/// `{`
pub const OPEN_BRACE: u8 = 123;
/// `}`
pub const CLOSE_BRACE: u8 = 125;
/// `:`
pub const COLON: u8 = 58;
/// `,`
pub const COMMA: u8 = 44;
/// ` `
pub const SPACE: u8 = 32;

/// Whether the bytes are valid UTF-8 text, as std decodes it.
pub uninterp spec fn is_utf8(b: Seq<u8>) -> bool;

/// Relies on `std::str::from_utf8`: it succeeds exactly on valid UTF-8.
#[verifier::external_body]
pub(crate) fn is_text(b: &[u8]) -> (r: bool)
    ensures
        r == is_utf8(b@),
{
    std::str::from_utf8(b).is_ok()
}

/// One entry: `key: stat`.
pub open spec fn entry_bytes(key: Seq<u8>, stat: Seq<u8>) -> Seq<u8> {
    key + seq![COLON, SPACE] + stat
}

/// The entries, separated by `, `.
pub open spec fn join_entries(es: Seq<Seq<u8>>) -> Seq<u8>
    decreases es.len(),
{
    if es.len() == 0 {
        Seq::empty()
    } else if es.len() == 1 {
        es[0]
    } else {
        join_entries(es.drop_last()) + seq![COMMA, SPACE] + es.last()
    }
}

/// The whole report line, wrapped in braces.
pub open spec fn report_bytes(es: Seq<Seq<u8>>) -> Seq<u8> {
    seq![OPEN_BRACE] + join_entries(es) + seq![CLOSE_BRACE]
}

/// The entries of groups `keys` with statistics `stats`, taken in order `ord`.
pub open spec fn ordered_entries(
    keys: Seq<Seq<u8>>,
    stats: Seq<Seq<u8>>,
    ord: Seq<usize>,
) -> Seq<Seq<u8>> {
    ord.map_values(|i: usize| entry_bytes(keys[i as int], stats[i as int]))
}

/// Every key is valid text.
pub open spec fn all_text(keys: Seq<Seq<u8>>) -> bool {
    forall|i: int| 0 <= i < keys.len() ==> is_utf8(#[trigger] keys[i])
}

/// Why a report cannot be written.
#[derive(Clone, Copy, Debug, PartialEq, Eq, Structural)]
pub enum ReportError {
    /// A key is not valid UTF-8 text.
    KeyNotText,
}

fn append(out: &mut Vec<u8>, s: &[u8])
    ensures
        final(out)@ == old(out)@ + s@,
{
    let mut i: usize = 0;
    while i < s.len()
        invariant
            0 <= i <= s@.len(),
            out@ == old(out)@ + s@.take(i as int),
        decreases s@.len() - i,
    {
        out.push(s[i]);
        i = i + 1;
        assert(s@.take(i as int) =~= s@.take(i - 1) + seq![s@[i - 1]]);
    }
    assert(s@.take(i as int) =~= s@);
}

/// Writes the report of the groups of `table` in the order `ord`, `stats[g]`
/// being the formatted statistic of group `g`. Each key is checked to be text.
pub fn render_report(table: &GroupTable, stats: &Vec<Vec<u8>>, ord: &Vec<usize>) -> (r: Result<
    Vec<u8>,
    ReportError,
>)
    requires
        is_sorted_order(table@, ord@),
        stats@.len() == table@.len(),
    ensures
        r is Err <==> !all_text(table@),
        r matches Ok(out) ==> out@ == report_bytes(
            ordered_entries(table@, stats@.map_values(|s: Vec<u8>| s@), ord@),
        ),
{
    let ghost keys = table@;
    let ghost st = stats@.map_values(|s: Vec<u8>| s@);
    let ghost es = ordered_entries(keys, st, ord@);
    let mut out: Vec<u8> = Vec::new();
    out.push(OPEN_BRACE);
    let mut q: usize = 0;
    while q < ord.len()
        invariant
            is_sorted_order(keys, ord@),
            keys == table@,
            stats@.len() == keys.len(),
            st == stats@.map_values(|s: Vec<u8>| s@),
            es == ordered_entries(keys, st, ord@),
            0 <= q <= ord@.len(),
            out@ == seq![OPEN_BRACE] + join_entries(es.take(q as int)),
            forall|j: int| 0 <= j < q ==> is_utf8(#[trigger] keys[ord@[j] as int]),
        decreases ord@.len() - q,
    {
        let g = ord[q];
        let key = table.key(g);
        if !is_text(key) {
            return Err(ReportError::KeyNotText);
        }
        let ghost prev = out@;
        if q > 0 {
            out.push(COMMA);
            out.push(SPACE);
        }
        append(&mut out, key);
        out.push(COLON);
        out.push(SPACE);
        append(&mut out, stats[g].as_slice());
        proof {
            let t = es.take(q + 1);
            assert(t.drop_last() =~= es.take(q as int));
            assert(t.last() == entry_bytes(keys[g as int], st[g as int]));
            assert(out@ =~= seq![OPEN_BRACE] + join_entries(t));
        }
        q = q + 1;
    }
    out.push(CLOSE_BRACE);
    proof {
        assert(es.take(q as int) =~= es);
        assert(out@ =~= report_bytes(es));
        assert forall|i: int| 0 <= i < keys.len() implies is_utf8(#[trigger] keys[i]) by {
            assert(ord@.contains(i as usize));
            let j = choose|j: int| 0 <= j < ord@.len() && ord@[j] == i as usize;
            assert(is_utf8(keys[ord@[j] as int]));
        }
    }
    Ok(out)
}

} // verus!

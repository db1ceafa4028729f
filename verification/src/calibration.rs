//! The calibration store: parsing calibration rows and exact-key lookup.
//!
//! A calibration table is plain text: one header line, then one
//! comma-separated row per calibration experiment, fields in the order
//! reference size in thousands, power, pack count, scout count, threshold,
//! specificity. The reference size key is the stored value times one
//! thousand. A row with any malformed field is skipped; the first row
//! whose four key fields all match exactly wins.

use vstd::prelude::*;

use crate::text::{micros_of, parse_micros, parse_u64, split_commas, split_commas_spec, u64_of};

verus! {

/// One well-formed calibration row. `reference_size` is already expanded
/// to samples; `threshold_micros` and `specificity_micros` hold the two
/// decimal fields exactly, in millionths.
#[derive(Clone, Copy, PartialEq, Eq, Structural, Debug)]
pub struct CalibrationRow {
    pub reference_size: u64,
    pub power: u32,
    pub num_packs: u64,
    pub num_scouts: u64,
    pub threshold_micros: i64,
    pub specificity_micros: i64,
}

/// The row a line holds: `None` when the line has fewer than six fields
/// or any of the first six is malformed.
pub open spec fn row_of_line(s: Seq<u8>) -> Option<CalibrationRow> {
    let fs = split_commas_spec(s);
    if fs.len() < 6 {
        None
    } else {
        match (u64_of(fs[0]), u64_of(fs[1]), u64_of(fs[2]), u64_of(fs[3]), micros_of(fs[4]),
        micros_of(fs[5])) {
            (
                Some(kilo),
                Some(power),
                Some(packs),
                Some(scouts),
                Some(threshold),
                Some(specificity),
            ) => {
                if kilo <= u64::MAX / 1000 && power <= u32::MAX {
                    Some(
                        CalibrationRow {
                            reference_size: (kilo * 1000) as u64,
                            power: power as u32,
                            num_packs: packs,
                            num_scouts: scouts,
                            threshold_micros: threshold,
                            specificity_micros: specificity,
                        },
                    )
                } else {
                    None
                }
            },
            _ => None,
        }
    }
}

/// Parses one calibration line.
pub fn parse_row(line: &Vec<u8>) -> (r: Option<CalibrationRow>)
    ensures
        r == row_of_line(line@),
{
    let fields = split_commas(line);
    proof {
        assert(fields.deep_view().len() == fields@.len());
    }
    if fields.len() < 6 {
        return None;
    }
    proof {
        assert forall|i: int| 0 <= i < 6 implies fields@[i]@ == split_commas_spec(line@)[i] by {
            assert(fields.deep_view()[i] == fields@[i].deep_view());
            assert(fields@[i].deep_view() =~= fields@[i]@);
        }
    }
    let kilo = match parse_u64(&fields[0]) {
        Some(v) => v,
        None => {
            return None;
        },
    };
    let power = match parse_u64(&fields[1]) {
        Some(v) => v,
        None => {
            return None;
        },
    };
    let packs = match parse_u64(&fields[2]) {
        Some(v) => v,
        None => {
            return None;
        },
    };
    let scouts = match parse_u64(&fields[3]) {
        Some(v) => v,
        None => {
            return None;
        },
    };
    let threshold = match parse_micros(&fields[4]) {
        Some(v) => v,
        None => {
            return None;
        },
    };
    let specificity = match parse_micros(&fields[5]) {
        Some(v) => v,
        None => {
            return None;
        },
    };
    if kilo > u64::MAX / 1000 {
        return None;
    }
    if power > u32::MAX as u64 {
        return None;
    }
    Some(
        CalibrationRow {
            reference_size: kilo * 1000,
            power: power as u32,
            num_packs: packs,
            num_scouts: scouts,
            threshold_micros: threshold,
            specificity_micros: specificity,
        },
    )
}

/// The four key fields of `r` equal the requested key exactly.
pub open spec fn row_matches(
    r: CalibrationRow,
    reference_size: u64,
    power: u32,
    num_packs: u64,
    num_scouts: u64,
) -> bool {
    &&& r.reference_size == reference_size
    &&& r.power == power
    &&& r.num_packs == num_packs
    &&& r.num_scouts == num_scouts
}

/// The threshold and specificity of the first matching row at or after
/// line `i`, in file order.
pub open spec fn find_from(
    lines: Seq<Seq<u8>>,
    i: int,
    reference_size: u64,
    power: u32,
    num_packs: u64,
    num_scouts: u64,
) -> Option<(i64, i64)>
    decreases lines.len() - i,
{
    if i < 0 || i >= lines.len() {
        None
    } else {
        match row_of_line(lines[i]) {
            Some(r) => {
                if row_matches(r, reference_size, power, num_packs, num_scouts) {
                    Some((r.threshold_micros, r.specificity_micros))
                } else {
                    find_from(lines, i + 1, reference_size, power, num_packs, num_scouts)
                }
            },
            None => find_from(lines, i + 1, reference_size, power, num_packs, num_scouts),
        }
    }
}

/// What lookup returns on a whole table: the first match below the header
/// line, which is always skipped.
pub open spec fn lookup_spec(
    lines: Seq<Seq<u8>>,
    reference_size: u64,
    power: u32,
    num_packs: u64,
    num_scouts: u64,
) -> Option<(i64, i64)> {
    find_from(lines, 1, reference_size, power, num_packs, num_scouts)
}

/// Looks the key up in the calibration table, given as one line per entry
/// with the header first. Returns the threshold and specificity of the
/// first row whose four key fields match exactly, both in millionths.
pub fn lookup(
    lines: &Vec<Vec<u8>>,
    reference_size: usize,
    power: u32,
    num_packs: usize,
    num_scouts: usize,
) -> (r: Option<(i64, i64)>)
    ensures
        r == lookup_spec(
            lines.deep_view(),
            reference_size as u64,
            power,
            num_packs as u64,
            num_scouts as u64,
        ),
{
    let ghost dv = lines.deep_view();
    let n = lines.len();
    proof {
        assert(dv.len() == n);
    }
    let mut i: usize = 1;
    while i < n
        invariant
            1 <= i,
            i <= n || (n == 0 && i == 1),
            n == lines@.len(),
            dv == lines.deep_view(),
            find_from(dv, 1, reference_size as u64, power, num_packs as u64, num_scouts as u64)
                == find_from(
                dv,
                i as int,
                reference_size as u64,
                power,
                num_packs as u64,
                num_scouts as u64,
            ),
        decreases n - i,
    {
        proof {
            assert(lines@[i as int].deep_view() =~= lines@[i as int]@);
            assert(dv[i as int] == lines@[i as int]@);
        }
        let row = parse_row(&lines[i]);
        match row {
            Some(r) => {
                if r.reference_size == reference_size as u64 && r.power == power && r.num_packs
                    == num_packs as u64 && r.num_scouts == num_scouts as u64 {
                    return Some((r.threshold_micros, r.specificity_micros));
                }
            },
            None => {},
        }
        i += 1;
    }
    None
}

/// Lookup is a pure function of the table and the four key fields: equal
/// tables and equal keys give equal results.
pub proof fn lemma_lookup_pure(
    lines1: Seq<Seq<u8>>,
    lines2: Seq<Seq<u8>>,
    reference_size: u64,
    power: u32,
    num_packs: u64,
    num_scouts: u64,
)
    requires
        lines1 == lines2,
    ensures
        lookup_spec(lines1, reference_size, power, num_packs, num_scouts) == lookup_spec(
            lines2,
            reference_size,
            power,
            num_packs,
            num_scouts,
        ),
{
}

/// Lookup matches by exact equality only: when no row below the header
/// matches the key exactly, nothing is returned — there is no fallback to
/// a nearest row.
pub proof fn lemma_lookup_exact_only(
    lines: Seq<Seq<u8>>,
    reference_size: u64,
    power: u32,
    num_packs: u64,
    num_scouts: u64,
)
    requires
        forall|i: int|
            1 <= i < lines.len() ==> match #[trigger] row_of_line(lines[i]) {
                Some(r) => !row_matches(r, reference_size, power, num_packs, num_scouts),
                None => true,
            },
    ensures
        lookup_spec(lines, reference_size, power, num_packs, num_scouts) is None,
{
    lemma_find_from_none(lines, 1, reference_size, power, num_packs, num_scouts);
}

proof fn lemma_find_from_none(
    lines: Seq<Seq<u8>>,
    i: int,
    reference_size: u64,
    power: u32,
    num_packs: u64,
    num_scouts: u64,
)
    requires
        i >= 1,
        forall|k: int|
            i <= k < lines.len() ==> match #[trigger] row_of_line(lines[k]) {
                Some(r) => !row_matches(r, reference_size, power, num_packs, num_scouts),
                None => true,
            },
    ensures
        find_from(lines, i, reference_size, power, num_packs, num_scouts) is None,
    decreases lines.len() - i,
{
    if i < lines.len() {
        lemma_find_from_none(lines, i + 1, reference_size, power, num_packs, num_scouts);
    }
}

/// The first matching row in file order wins: when a line below the
/// header holds a matching row and no earlier line below the header
/// does, lookup answers exactly that row's threshold and specificity.
pub proof fn lemma_first_match_wins(
    lines: Seq<Seq<u8>>,
    i: int,
    reference_size: u64,
    power: u32,
    num_packs: u64,
    num_scouts: u64,
)
    requires
        1 <= i < lines.len(),
        row_of_line(lines[i]) is Some,
        row_matches(row_of_line(lines[i]).unwrap(), reference_size, power, num_packs, num_scouts),
        forall|k: int|
            1 <= k < i ==> match #[trigger] row_of_line(lines[k]) {
                Some(r) => !row_matches(r, reference_size, power, num_packs, num_scouts),
                None => true,
            },
    ensures
        lookup_spec(lines, reference_size, power, num_packs, num_scouts) == Some(
            (
                row_of_line(lines[i]).unwrap().threshold_micros,
                row_of_line(lines[i]).unwrap().specificity_micros,
            ),
        ),
{
    lemma_find_from_skip_to(lines, 1, i, reference_size, power, num_packs, num_scouts);
}

proof fn lemma_find_from_skip_to(
    lines: Seq<Seq<u8>>,
    j: int,
    i: int,
    reference_size: u64,
    power: u32,
    num_packs: u64,
    num_scouts: u64,
)
    requires
        1 <= j <= i < lines.len(),
        forall|k: int|
            j <= k < i ==> match #[trigger] row_of_line(lines[k]) {
                Some(r) => !row_matches(r, reference_size, power, num_packs, num_scouts),
                None => true,
            },
    ensures
        find_from(lines, j, reference_size, power, num_packs, num_scouts) == find_from(
            lines,
            i,
            reference_size,
            power,
            num_packs,
            num_scouts,
        ),
    decreases i - j,
{
    if j < i {
        lemma_find_from_skip_to(lines, j + 1, i, reference_size, power, num_packs, num_scouts);
    }
}

/// A malformed line never hides a later match: the scan steps over any
/// line that does not parse, or parses but does not match.
pub proof fn lemma_malformed_row_skipped(
    lines: Seq<Seq<u8>>,
    i: int,
    reference_size: u64,
    power: u32,
    num_packs: u64,
    num_scouts: u64,
)
    requires
        0 <= i < lines.len(),
        match row_of_line(lines[i]) {
            Some(r) => !row_matches(r, reference_size, power, num_packs, num_scouts),
            None => true,
        },
    ensures
        find_from(lines, i, reference_size, power, num_packs, num_scouts) == find_from(
            lines,
            i + 1,
            reference_size,
            power,
            num_packs,
            num_scouts,
        ),
{
}

} // verus!

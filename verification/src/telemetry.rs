//! The fields of an `nvidia-smi` CSV sample line.
use vstd::prelude::*;
use crate::text::{chars_of, parse_decimal, parse_unsigned, split_bounds, split_on, string_from_chars, trim, trim_bounds};

verus! {

/// The fields of one sample line whose numbers are read outside the
/// library: device index, device name, and the five measurements (memory
/// used, memory free, utilization, temperature, power) as trimmed text.
#[derive(Debug)]
pub struct SampleFields {
    pub device_index: u32,
    pub device_name: String,
    pub measurements: Vec<String>,
}

/// The trimmed comma-separated fields of a line.
pub open spec fn csv_fields(line: Seq<char>) -> Seq<Seq<char>> {
    split_on(line, ',').map_values(|f: Seq<char>| trim(f))
}

/// Whether `r` holds the fields of `line`: exactly seven, the first a
/// `u32` device index.
pub open spec fn sample_fields_of(line: Seq<char>, r: SampleFields) -> bool {
    let fields = csv_fields(line);
    &&& fields.len() == 7
    &&& parse_unsigned(fields[0], u32::MAX as nat) == Some(r.device_index as nat)
    &&& r.device_name@ == fields[1]
    &&& r.measurements@.len() == 5
    &&& forall|i: int| 0 <= i < 5 ==> (#[trigger] r.measurements@[i])@ == fields[i + 2]
}

/// Whether a line cannot be a sample: not seven fields, or no index.
pub open spec fn not_a_sample(line: Seq<char>) -> bool {
    let fields = csv_fields(line);
    fields.len() != 7 || parse_unsigned(fields[0], u32::MAX as nat) is None
}

/// Splits a sample line into its fields.
pub fn sample_fields(line: &str) -> (r: Option<SampleFields>)
    ensures
        match r {
            Some(f) => sample_fields_of(line@, f),
            None => not_a_sample(line@),
        },
{
    let cs = chars_of(line);
    let bounds = split_bounds(&cs, ',');
    let ghost fields = csv_fields(line@);
    proof {
        assert(fields.len() == bounds@.len());
    }
    if bounds.len() != 7 {
        return None;
    }
    let (s0, e0) = bounds[0];
    let (a0, b0) = trim_bounds(&cs, s0, e0);
    proof {
        assert(fields[0] == trim(split_on(cs@, ',')[0]));
    }
    let device_index = match parse_decimal(&cs, a0, b0, 4294967295) {
        Some(v) => v as u32,
        None => return None,
    };
    let (s1, e1) = bounds[1];
    let (a1, b1) = trim_bounds(&cs, s1, e1);
    let device_name = string_from_chars(&cs, a1, b1);
    let mut measurements: Vec<String> = Vec::new();
    let mut i: usize = 2;
    while i < 7
        invariant
            2 <= i <= 7,
            bounds@.len() == 7,
            cs@ == line@,
            fields == csv_fields(line@),
            fields.len() == 7,
            forall|j: int|
                0 <= j < bounds@.len() ==> {
                    &&& (#[trigger] bounds@[j]).0 <= bounds@[j].1 <= cs@.len()
                    &&& cs@.subrange(bounds@[j].0 as int, bounds@[j].1 as int) == split_on(cs@, ',')[j]
                },
            measurements@.len() == i - 2,
            forall|j: int| 0 <= j < i - 2 ==> (#[trigger] measurements@[j])@ == fields[j + 2],
        decreases 7 - i,
    {
        let (s, e) = bounds[i];
        let (a, b) = trim_bounds(&cs, s, e);
        proof {
            assert(fields[i as int] == trim(split_on(cs@, ',')[i as int]));
        }
        measurements.push(string_from_chars(&cs, a, b));
        i = i + 1;
    }
    proof {
        assert(fields[1] == trim(split_on(cs@, ',')[1]));
    }
    Some(SampleFields { device_index, device_name, measurements })
}

} // verus!

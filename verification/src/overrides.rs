//! Comma-separated overrides of the benchmark sweep (such as `5,10,20`): a
//! value that is absent or blank leaves the default in place; otherwise every
//! field is trimmed and the fields that parse are kept, in order.

use vstd::prelude::*;
use crate::text::{
    decimal, lemma_decimal_parses, lemma_split_append_nosep, lemma_trim_no_ws, is_ws, is_digit,
    chars_of, parse_bounded, parse_usize, seqs_of, split_chars, split_on, string_of, trim,
    trim_bounds, trimmed,
};

verus! {

/// The trimmed fields of a comma-separated value.
pub open spec fn trimmed_fields(value: Seq<char>) -> Seq<Seq<char>> {
    split_on(value, ',').map_values(|f: Seq<char>| trim(f))
}

/// The fields that parse as `usize`, in order, the others dropped
/// (`filter_map(|x| x.parse().ok())`).
pub open spec fn parsed_usizes(fields: Seq<Seq<char>>) -> Seq<usize>
    decreases fields.len(),
{
    if fields.len() == 0 {
        Seq::<usize>::empty()
    } else {
        let r = parsed_usizes(fields.drop_last());
        match parse_bounded(fields.last(), usize::MAX as nat) {
            Some(v) => r.push(v as usize),
            None => r,
        }
    }
}

/// A value that is present and holds something besides whitespace.
pub open spec fn overrides(value: Option<Seq<char>>) -> bool {
    value matches Some(v) && trim(v).len() > 0
}

/// The list that a `usize` override selects: the parsed fields of a value
/// that is present and not blank, else the default.
pub open spec fn usize_list(value: Option<Seq<char>>, default: Seq<usize>) -> Seq<usize> {
    if overrides(value) {
        parsed_usizes(trimmed_fields(value->0))
    } else {
        default
    }
}

/// Sizes written in decimal and separated by commas, as in `100,250,500`.
pub open spec fn join_decimals(xs: Seq<usize>) -> Seq<char>
    decreases xs.len(),
{
    if xs.len() == 0 {
        Seq::<char>::empty()
    } else if xs.len() == 1 {
        decimal(xs[0] as nat)
    } else {
        join_decimals(xs.drop_last()).push(',') + decimal(xs.last() as nat)
    }
}

/// Every character of such a list is a digit or a comma, and the comma-split
/// pieces are the decimals, in order.
proof fn lemma_join_decimals(xs: Seq<usize>)
    requires
        xs.len() > 0,
    ensures
        forall|i: int|
            0 <= i < join_decimals(xs).len() ==> is_digit(#[trigger] join_decimals(xs)[i])
                || join_decimals(xs)[i] == ',',
        join_decimals(xs).len() > 0,
        split_on(join_decimals(xs), ',') == xs.map_values(|x: usize| decimal(x as nat)),
    decreases xs.len(),
{
    let d = decimal(xs.last() as nat);
    lemma_decimal_parses(xs.last() as nat);
    assert(forall|i: int| 0 <= i < d.len() ==> is_digit(#[trigger] d[i]));
    assert forall|i: int| 0 <= i < d.len() implies d[i] != ',' by {
        assert(is_digit(d[i]));
    }
    if xs.len() == 1 {
        lemma_split_append_nosep(Seq::<char>::empty(), d, ',');
        assert(Seq::<char>::empty() + d == d);
        assert(split_on(Seq::<char>::empty(), ',') == seq![Seq::<char>::empty()]);
        assert(Seq::<char>::empty() + d =~= d);
        assert(split_on(d, ',') =~= xs.map_values(|x: usize| decimal(x as nat)));
    } else {
        let prev = xs.drop_last();
        lemma_join_decimals(prev);
        let j = join_decimals(prev);
        let jc = j.push(',');
        assert(jc.drop_last() == j);
        assert(split_on(jc, ',') == split_on(j, ',').push(Seq::<char>::empty()));
        lemma_split_append_nosep(jc, d, ',');
        assert(Seq::<char>::empty() + d =~= d);
        assert(split_on(jc + d, ',') =~= xs.map_values(|x: usize| decimal(x as nat)));
        let w = join_decimals(xs);
        assert(w == jc + d);
        assert forall|i: int| 0 <= i < w.len() implies is_digit(#[trigger] w[i]) || w[i] == ',' by {
            if i < j.len() {
                assert(w[i] == j[i]);
            } else if i > j.len() {
                assert(w[i] == d[i - j.len() - 1]);
            }
        }
    }
}

/// The parsed fields of a list of decimals are the numbers written.
proof fn lemma_parse_decimals(xs: Seq<usize>)
    ensures
        parsed_usizes(xs.map_values(|x: usize| trim(decimal(x as nat)))) == xs,
    decreases xs.len(),
{
    let fs = xs.map_values(|x: usize| trim(decimal(x as nat)));
    if xs.len() > 0 {
        let prev = xs.drop_last();
        lemma_parse_decimals(prev);
        assert(fs.drop_last() =~= prev.map_values(|x: usize| trim(decimal(x as nat))));
        let x = xs.last();
        lemma_decimal_parses(x as nat);
        let d = decimal(x as nat);
        assert forall|i: int| 0 <= i < d.len() implies !is_ws(d[i]) by {
            assert(is_digit(d[i]));
        }
        lemma_trim_no_ws(d);
        assert(fs.last() == d);
        assert(parse_bounded(d, usize::MAX as nat) == Some(x as nat));
        assert(xs =~= prev.push(x));
    }
}

/// A present override that lists sizes in decimal, separated by commas,
/// selects exactly those sizes, in order, whatever their magnitude.
pub proof fn law_override_lists_written_sizes(xs: Seq<usize>, default: Seq<usize>)
    requires
        xs.len() > 0,
    ensures
        usize_list(Some(join_decimals(xs)), default) == xs,
{
    lemma_join_decimals(xs);
    let w = join_decimals(xs);
    assert forall|i: int| 0 <= i < w.len() implies !is_ws(w[i]) by {
        if w[i] != ',' {
            assert(is_digit(w[i]));
        }
    }
    lemma_trim_no_ws(w);
    assert(overrides(Some(w)));
    let ds = xs.map_values(|x: usize| decimal(x as nat));
    assert(trimmed_fields(w) =~= xs.map_values(|x: usize| trim(decimal(x as nat))));
    lemma_parse_decimals(xs);
}

/// Whether `value` overrides the default.
fn is_override(value: Option<&str>) -> (r: bool)
    ensures
        r == overrides(match value {
            Some(v) => Some(v@),
            None => None,
        }),
{
    match value {
        Some(v) => {
            let cs = chars_of(v);
            let (lo, hi) = trim_bounds(cs.as_slice());
            lo < hi
        },
        None => false,
    }
}

/// The trimmed fields of `value` when it overrides the default, else `None`.
/// A list of non-integers (such as threshold ratios) is parsed from these by
/// the caller.
pub fn override_fields(value: Option<&str>) -> (r: Option<Vec<String>>)
    ensures
        match value {
            Some(v) => if overrides(Some(v@)) {
                r matches Some(fs) && fs@.map_values(|f: String| f@) == trimmed_fields(v@)
            } else {
                r is None
            },
            None => r is None,
        },
{
    if !is_override(value) {
        return None;
    }
    let v = value.unwrap();
    let cs = chars_of(v);
    let pieces = split_chars(cs.as_slice(), ',');
    let ghost want = trimmed_fields(v@);
    let mut out: Vec<String> = Vec::new();
    for i in 0..pieces.len()
        invariant
            seqs_of(pieces@) == split_on(v@, ','),
            want == trimmed_fields(v@),
            out@.len() == i,
            forall|j: int| 0 <= j < i ==> #[trigger] out@[j]@ == want[j],
    {
        assert(pieces@[i as int]@ == split_on(v@, ',')[i as int]);
        let t = trimmed(pieces[i].as_slice());
        out.push(string_of(t.as_slice()));
    }
    assert(out@.map_values(|f: String| f@) =~= want);
    Some(out)
}

/// The `usize` list that `value` selects, `default` when it is absent or
/// blank.
pub fn usize_list_or_default(value: Option<&str>, default: &[usize]) -> (r: Vec<usize>)
    ensures
        r@ == usize_list(
            match value {
                Some(v) => Some(v@),
                None => None,
            },
            default@,
        ),
{
    if !is_override(value) {
        let mut d: Vec<usize> = Vec::new();
        for i in 0..default.len()
            invariant
                d@ == default@.take(i as int),
        {
            d.push(default[i]);
            assert(default@.take(i + 1) == default@.take(i as int).push(default@[i as int]));
        }
        assert(default@.take(default@.len() as int) == default@);
        return d;
    }
    let v = value.unwrap();
    let cs = chars_of(v);
    let pieces = split_chars(cs.as_slice(), ',');
    let ghost fields = trimmed_fields(v@);
    let mut out: Vec<usize> = Vec::new();
    assert(fields.take(0) == Seq::<Seq<char>>::empty());
    for i in 0..pieces.len()
        invariant
            seqs_of(pieces@) == split_on(v@, ','),
            fields == trimmed_fields(v@),
            fields.len() == pieces@.len(),
            out@ == parsed_usizes(fields.take(i as int)),
    {
        assert(pieces@[i as int]@ == split_on(v@, ',')[i as int]);
        let t = trimmed(pieces[i].as_slice());
        assert(fields.take(i + 1).drop_last() == fields.take(i as int));
        assert(fields.take(i + 1).last() == t@);
        match parse_usize(t.as_slice()) {
            Some(x) => {
                out.push(x);
            },
            None => {},
        }
    }
    assert(fields.take(fields.len() as int) == fields);
    out
}

} // verus!

use vstd::prelude::*;
use vstd::string::*;

verus! {

/// The characters with the Unicode `White_Space` property, those that
/// `char::is_whitespace` accepts.
pub open spec fn is_white_space(c: char) -> bool {
    let v = c as u32;
    ||| 0x9 <= v <= 0xd
    ||| v == 0x20
    ||| v == 0x85
    ||| v == 0xa0
    ||| v == 0x1680
    ||| 0x2000 <= v <= 0x200a
    ||| v == 0x2028
    ||| v == 0x2029
    ||| v == 0x202f
    ||| v == 0x205f
    ||| v == 0x3000
}

/// `text` without its leading white space.
pub open spec fn trim_start(text: Seq<char>) -> Seq<char>
    decreases text.len(),
{
    if text.len() > 0 && is_white_space(text[0]) {
        trim_start(text.drop_first())
    } else {
        text
    }
}

/// `text` without its trailing white space.
pub open spec fn trim_end(text: Seq<char>) -> Seq<char>
    decreases text.len(),
{
    if text.len() > 0 && is_white_space(text.last()) {
        trim_end(text.drop_last())
    } else {
        text
    }
}

/// `text` without white space at either end, as `str::trim` gives it.
pub open spec fn trim(text: Seq<char>) -> Seq<char> {
    trim_end(trim_start(text))
}

/// Every character of `text` is white space.
pub open spec fn all_white_space(text: Seq<char>) -> bool {
    forall|i: int| 0 <= i < text.len() ==> is_white_space(#[trigger] text[i])
}

/// `field` is `text` with exactly its white space at both ends removed:
/// `text` is `field` between two runs of white space, and `field` neither
/// starts nor ends with white space.
pub open spec fn is_trimmed_field(field: Seq<char>, text: Seq<char>) -> bool {
    exists|lead: int, tail: int|
        {
            &&& 0 <= lead <= tail <= text.len()
            &&& field == text.subrange(lead, tail)
            &&& all_white_space(#[trigger] text.take(lead))
            &&& all_white_space(#[trigger] text.skip(tail))
            &&& lead < tail ==> !is_white_space(text[lead]) && !is_white_space(text[tail - 1])
        }
}

/// `trim_start` drops exactly the leading run of white space.
proof fn lemma_trim_start_drops_leading_run(text: Seq<char>) -> (lead: int)
    ensures
        0 <= lead <= text.len(),
        trim_start(text) == text.skip(lead),
        all_white_space(text.take(lead)),
        lead < text.len() ==> !is_white_space(text[lead]),
    decreases text.len(),
{
    if text.len() > 0 && is_white_space(text[0]) {
        let rest = lemma_trim_start_drops_leading_run(text.drop_first());
        assert(text.drop_first().skip(rest) =~= text.skip(rest + 1));
        assert forall|i: int| 0 <= i < rest + 1 implies is_white_space(
            #[trigger] text.take(rest + 1)[i],
        ) by {
            if i > 0 {
                assert(text.take(rest + 1)[i] == text.drop_first().take(rest)[i - 1]);
            }
        }
        rest + 1
    } else {
        assert(text.skip(0) =~= text);
        0
    }
}

/// `trim_end` drops exactly the trailing run of white space.
proof fn lemma_trim_end_drops_trailing_run(text: Seq<char>) -> (tail: int)
    ensures
        0 <= tail <= text.len(),
        trim_end(text) == text.take(tail),
        all_white_space(text.skip(tail)),
        0 < tail ==> !is_white_space(text[tail - 1]),
    decreases text.len(),
{
    if text.len() > 0 && is_white_space(text.last()) {
        let rest = lemma_trim_end_drops_trailing_run(text.drop_last());
        assert(text.drop_last().take(rest) =~= text.take(rest));
        assert forall|i: int| 0 <= i < text.len() - rest implies is_white_space(
            #[trigger] text.skip(rest)[i],
        ) by {
            if rest + i < text.len() - 1 {
                assert(text.skip(rest)[i] == text.drop_last().skip(rest)[i]);
            }
        }
        rest
    } else {
        assert(text.take(text.len() as int) =~= text);
        text.len() as int
    }
}

/// `trim` removes exactly the white space at both ends of a text, however
/// long those runs are, and nothing else.
pub proof fn lemma_trim_removes_exactly_outer_white_space(text: Seq<char>)
    ensures
        is_trimmed_field(trim(text), text),
{
    let lead = lemma_trim_start_drops_leading_run(text);
    let rest = text.skip(lead);
    let tail = lemma_trim_end_drops_trailing_run(rest);
    assert(rest.take(tail) =~= text.subrange(lead, lead + tail));
    assert(text.skip(lead + tail) =~= rest.skip(tail));
    if 0 < tail {
        assert(rest[0] == text[lead]);
        assert(rest[tail - 1] == text[lead + tail - 1]);
    }
}

/// A text has only one trimmed form.
pub proof fn lemma_trimmed_field_unique(a: Seq<char>, b: Seq<char>, text: Seq<char>)
    requires
        is_trimmed_field(a, text),
        is_trimmed_field(b, text),
    ensures
        a == b,
{
    let (la, ta) = choose|lead: int, tail: int|
        {
            &&& 0 <= lead <= tail <= text.len()
            &&& a == text.subrange(lead, tail)
            &&& all_white_space(#[trigger] text.take(lead))
            &&& all_white_space(#[trigger] text.skip(tail))
            &&& lead < tail ==> !is_white_space(text[lead]) && !is_white_space(text[tail - 1])
        };
    let (lb, tb) = choose|lead: int, tail: int|
        {
            &&& 0 <= lead <= tail <= text.len()
            &&& b == text.subrange(lead, tail)
            &&& all_white_space(#[trigger] text.take(lead))
            &&& all_white_space(#[trigger] text.skip(tail))
            &&& lead < tail ==> !is_white_space(text[lead]) && !is_white_space(text[tail - 1])
        };
    // A non-white character at `k` cannot lie in a white run of either form.
    assert forall|k: int| 0 <= k < la implies is_white_space(text[k]) by {
        assert(text.take(la)[k] == text[k]);
    }
    assert forall|k: int| 0 <= k < lb implies is_white_space(text[k]) by {
        assert(text.take(lb)[k] == text[k]);
    }
    assert forall|k: int| ta <= k < text.len() implies is_white_space(text[k]) by {
        assert(text.skip(ta)[k - ta] == text[k]);
    }
    assert forall|k: int| tb <= k < text.len() implies is_white_space(text[k]) by {
        assert(text.skip(tb)[k - tb] == text[k]);
    }
    if la < ta && lb < tb {
        assert(la == lb);
        assert(ta == tb);
    } else if la < ta {
        assert(!is_white_space(text[la]));
        assert(la < lb || tb <= la);
    } else if lb < tb {
        assert(!is_white_space(text[lb]));
        assert(lb < la || ta <= lb);
    }
    assert(a =~= b);
}

/// `text` holds no comma.
pub open spec fn comma_free(text: Seq<char>) -> bool {
    forall|i: int| 0 <= i < text.len() ==> text[i] != ','
}

/// The only comma of `text` stands at `at`.
pub open spec fn sole_comma_at(text: Seq<char>, at: int) -> bool {
    &&& 0 <= at < text.len()
    &&& text[at] == ','
    &&& comma_free(text.take(at))
    &&& comma_free(text.skip(at + 1))
}

/// The two fields of a position written as `x,y`: the text splits at commas
/// into exactly two parts, each taken without surrounding white space.
/// Any other number of commas gives no fields.
pub open spec fn position_fields(text: Seq<char>) -> Option<(Seq<char>, Seq<char>)> {
    if exists|at: int| sole_comma_at(text, at) {
        let at = choose|at: int| sole_comma_at(text, at);
        Some((trim(text.take(at)), trim(text.skip(at + 1))))
    } else {
        None
    }
}

/// A comma stands at most at one place where it is the only one.
pub proof fn lemma_sole_comma_unique(text: Seq<char>, a: int, b: int)
    requires
        sole_comma_at(text, a),
        sole_comma_at(text, b),
    ensures
        a == b,
{
    if a < b {
        assert(text.skip(a + 1)[b - a - 1] == text[b]);
    } else if b < a {
        assert(text.skip(b + 1)[a - b - 1] == text[a]);
    }
}

/// Writing two comma-free fields as `x,y` and splitting the text again gives
/// back the two fields without their surrounding white space.
pub proof fn lemma_position_fields_of_joined(x: Seq<char>, y: Seq<char>)
    requires
        comma_free(x),
        comma_free(y),
    ensures
        position_fields(x + seq![','] + y) == Some((trim(x), trim(y))),
{
    let text = x + seq![','] + y;
    assert(text.take(x.len() as int) =~= x);
    assert(text.skip(x.len() as int + 1) =~= y);
    assert(sole_comma_at(text, x.len() as int));
    let chosen = choose|at: int| sole_comma_at(text, at);
    lemma_sole_comma_unique(text, x.len() as int, chosen);
}

/// Whether `c` is white space, as `char::is_whitespace` decides.
pub fn is_whitespace_char(c: char) -> (r: bool)
    ensures
        r == is_white_space(c),
{
    let v = c as u32;
    (0x9 <= v && v <= 0xd) || v == 0x20 || v == 0x85 || v == 0xa0 || v == 0x1680 || (0x2000 <= v
        && v <= 0x200a) || v == 0x2028 || v == 0x2029 || v == 0x202f || v == 0x205f || v
        == 0x3000
}


/// The characters of `text`, in order.
fn chars_of(text: &str) -> (chars: Vec<char>)
    ensures
        chars@ == text@,
{
    broadcast use axiom_spec_iter;

    let mut chars: Vec<char> = Vec::new();
    for c in it: text.chars()
        invariant
            it.seq() == text@,
            chars@ == it.seq().take(it.index()),
    {
        chars.push(c);
    }
    chars
}


/// The bounds of `chars[start..end]` without white space at either end.
fn trimmed_bounds(chars: &Vec<char>, start: usize, end: usize) -> (bounds: (usize, usize))
    requires
        start <= end <= chars@.len(),
    ensures
        start <= bounds.0 <= bounds.1 <= end,
        chars@.subrange(bounds.0 as int, bounds.1 as int) == trim(
            chars@.subrange(start as int, end as int),
        ),
        forall|i: int| start <= i < bounds.0 ==> is_white_space(#[trigger] chars@[i]),
        forall|i: int| bounds.1 <= i < end ==> is_white_space(#[trigger] chars@[i]),
        bounds.0 < bounds.1 ==> !is_white_space(chars@[bounds.0 as int]) && !is_white_space(
            chars@[bounds.1 - 1],
        ),
{
    let mut lo = start;
    while lo < end && is_whitespace_char(chars[lo])
        invariant
            start <= lo <= end <= chars@.len(),
            trim_start(chars@.subrange(start as int, end as int)) == trim_start(
                chars@.subrange(lo as int, end as int),
            ),
            forall|i: int| start <= i < lo ==> is_white_space(#[trigger] chars@[i]),
        decreases end - lo,
    {
        assert(chars@.subrange(lo as int, end as int).drop_first() =~= chars@.subrange(
            lo + 1,
            end as int,
        ));
        lo = lo + 1;
    }
    let mut hi = end;
    while hi > lo && is_whitespace_char(chars[hi - 1])
        invariant
            start <= lo <= hi <= end <= chars@.len(),
            trim_end(chars@.subrange(lo as int, end as int)) == trim_end(
                chars@.subrange(lo as int, hi as int),
            ),
            forall|i: int| start <= i < lo ==> is_white_space(#[trigger] chars@[i]),
            lo < end ==> !is_white_space(chars@[lo as int]),
            forall|i: int| hi <= i < end ==> is_white_space(#[trigger] chars@[i]),
        decreases hi - lo,
    {
        assert(chars@.subrange(lo as int, hi as int).drop_last() =~= chars@.subrange(
            lo as int,
            hi - 1,
        ));
        hi = hi - 1;
    }
    (lo, hi)
}

/// Splits a position written as `x,y` into its two fields, each without
/// surrounding white space. Text with no comma or with more than one gives
/// `None`.
pub fn split_position_fields<'a>(text: &'a str) -> (fields: Option<(&'a str, &'a str)>)
    ensures
        match fields {
            Some((x, y)) => position_fields(text@) == Some((x@, y@)),
            None => position_fields(text@) is None,
        },
        fields is None <==> !exists|at: int| sole_comma_at(text@, at),
        fields matches Some((x, y)) ==> exists|at: int|
            #![trigger sole_comma_at(text@, at)]
            {
                &&& sole_comma_at(text@, at)
                &&& is_trimmed_field(x@, text@.take(at))
                &&& is_trimmed_field(y@, text@.skip(at + 1))
            },
{
    let chars = chars_of(text);
    let n = chars.len();
    let mut comma: Option<usize> = None;
    let mut i: usize = 0;
    while i < n
        invariant
            i <= n == chars@.len(),
            chars@ == text@,
            match comma {
                None => comma_free(chars@.take(i as int)),
                Some(c) => {
                    &&& c < i
                    &&& chars@[c as int] == ','
                    &&& comma_free(chars@.take(c as int))
                    &&& comma_free(chars@.subrange(c + 1, i as int))
                },
            },
        decreases n - i,
    {
        if chars[i] == ',' {
            match comma {
                None => {
                    comma = Some(i);
                },
                Some(c) => {
                    assert forall|at: int| !sole_comma_at(text@, at) by {
                        if sole_comma_at(text@, at) {
                            if at == c {
                                assert(text@.skip(at + 1)[i - at - 1] == ',');
                            } else if at < c {
                                assert(text@.skip(at + 1)[c - at - 1] == ',');
                            } else {
                                assert(text@.take(at)[c as int] == ',');
                            }
                        }
                    }
                    return None;
                },
            }
        } else {
            match comma {
                None => {
                    let ghost grown = chars@.take(i + 1);
                    assert forall|k: int| 0 <= k < grown.len() implies #[trigger] grown[k] != ',' by {
                        if k < i {
                            assert(chars@.take(i as int)[k] == chars@[k]);
                        }
                    }
                },
                Some(c) => {
                    let ghost grown = chars@.subrange(c + 1, i + 1);
                    assert forall|k: int| 0 <= k < grown.len() implies #[trigger] grown[k] != ',' by {
                        if k < i - (c + 1) {
                            assert(chars@.subrange(c + 1, i as int)[k] == chars@[c + 1 + k]);
                        }
                    }
                },
            }
        }
        i = i + 1;
    }
    match comma {
        None => {
            assert forall|at: int| !sole_comma_at(text@, at) by {
                if 0 <= at < text@.len() {
                    assert(chars@.take(n as int)[at] == chars@[at]);
                }
            }
            None
        },
        Some(c) => {
            assert(chars@.subrange(c + 1, n as int) =~= text@.skip(c + 1));
            assert(sole_comma_at(text@, c as int));
            proof {
                let chosen = choose|at: int| sole_comma_at(text@, at);
                lemma_sole_comma_unique(text@, c as int, chosen);
            }
            let (x_lo, x_hi) = trimmed_bounds(&chars, 0, c);
            let (y_lo, y_hi) = trimmed_bounds(&chars, c + 1, n);
            assert(chars@.subrange(0, c as int) =~= text@.take(c as int));
            let x = text.substring_char(x_lo, x_hi);
            let y = text.substring_char(y_lo, y_hi);
            proof {
                lemma_trim_removes_exactly_outer_white_space(text@.take(c as int));
                lemma_trim_removes_exactly_outer_white_space(text@.skip(c + 1));
                assert(sole_comma_at(text@, c as int));
            }
            Some((x, y))
        },
    }
}

} // verus!

use vstd::prelude::*;

use crate::header::{
    parse_outcome, ArbitraryHeader, ArbitraryHeaderError, HeaderErrorView,
};

verus! {

#[verifier::external_type_specification]
#[verifier::external_body]
pub struct ExMethod(http::Method);

/// Why an invocation failed.
#[derive(Clone, Debug, PartialEq, Eq)]
pub enum RunError {
    /// A raw header argument was rejected; nothing was sent.
    HeaderInvalid(ArbitraryHeaderError),
    /// The transport reported an error, before or while the body came in.
    TransportFailed(String),
    /// The output sink refused a write.
    OutputFailed(String),
}

/// The single request of an invocation.
#[derive(Debug)]
pub struct RequestSpec {
    pub url: String,
    pub method: http::Method,
    /// Header fields, names unique, in the order in which each name first came.
    pub headers: Vec<ArbitraryHeader>,
}

/// Views of a sequence of header fields.
pub open spec fn fields_view(hs: Seq<ArbitraryHeader>) -> Seq<(Seq<char>, Seq<char>)> {
    hs.map_values(|h: ArbitraryHeader| h@)
}

pub open spec fn has_name(fs: Seq<(Seq<char>, Seq<char>)>, name: Seq<char>) -> bool {
    exists|i: int| 0 <= i < fs.len() && (#[trigger] fs[i]).0 == name
}

/// No name occurs twice.
pub open spec fn names_unique(fs: Seq<(Seq<char>, Seq<char>)>) -> bool {
    forall|i: int, j: int|
        0 <= i < fs.len() && 0 <= j < fs.len() && (#[trigger] fs[i]).0 == (#[trigger] fs[j]).0
            ==> i == j
}

/// Sets field `f`: it replaces the field of the same name where there is one,
/// in its place, and is appended otherwise.
pub open spec fn set_field(fs: Seq<(Seq<char>, Seq<char>)>, f: (Seq<char>, Seq<char>)) -> Seq<
    (Seq<char>, Seq<char>),
> {
    if has_name(fs, f.0) {
        let i = choose|i: int| 0 <= i < fs.len() && (#[trigger] fs[i]).0 == f.0;
        fs.update(i, f)
    } else {
        fs.push(f)
    }
}

/// The fields `fs` set one after the other into an empty collection: the last
/// field of each name wins.
pub open spec fn merged(fs: Seq<(Seq<char>, Seq<char>)>) -> Seq<(Seq<char>, Seq<char>)>
    decreases fs.len(),
{
    if fs.len() == 0 {
        Seq::empty()
    } else {
        set_field(merged(fs.drop_last()), fs.last())
    }
}

pub open spec fn all_parse(raw: Seq<Seq<char>>) -> bool {
    forall|i: int| 0 <= i < raw.len() ==> (#[trigger] parse_outcome(raw[i])) is Ok
}

/// The fields that the raw header arguments parse to.
pub open spec fn parsed_fields(raw: Seq<Seq<char>>) -> Seq<(Seq<char>, Seq<char>)> {
    raw.map_values(|s: Seq<char>| parse_outcome(s)->Ok_0)
}

/// `e` is the error of the first raw header argument that does not parse.
pub open spec fn first_error(raw: Seq<Seq<char>>, e: HeaderErrorView) -> bool {
    exists|k: int|
        0 <= k < raw.len() && all_parse(raw.take(k)) && #[trigger] parse_outcome(raw[k]) == Err::<
            (Seq<char>, Seq<char>),
            HeaderErrorView,
        >(e)
}

pub open spec fn strings_view(v: Seq<String>) -> Seq<Seq<char>> {
    v.map_values(|s: String| s@)
}

proof fn lemma_set_field(fs: Seq<(Seq<char>, Seq<char>)>, f: (Seq<char>, Seq<char>))
    requires
        names_unique(fs),
    ensures
        names_unique(set_field(fs, f)),
        has_name(set_field(fs, f), f.0),
        forall|i: int|
            0 <= i < set_field(fs, f).len() && (#[trigger] set_field(fs, f)[i]).0 == f.0
                ==> set_field(fs, f)[i] == f,
{
    let r = set_field(fs, f);
    if has_name(fs, f.0) {
        let c = choose|i: int| 0 <= i < fs.len() && (#[trigger] fs[i]).0 == f.0;
        assert(r[c] == f);
        assert forall|i: int| 0 <= i < r.len() && (#[trigger] r[i]).0 == f.0 implies r[i] == f by {
            if i != c {
                assert(fs[i].0 == fs[c].0);
            }
        }
        assert forall|i: int, j: int|
            0 <= i < r.len() && 0 <= j < r.len() && (#[trigger] r[i]).0 == (#[trigger] r[j]).0
                implies i == j by {
            if i != c && j != c {
                assert(fs[i].0 == fs[j].0);
            } else if i == c && j != c {
                assert(fs[j].0 == fs[c].0);
            } else if i != c && j == c {
                assert(fs[i].0 == fs[c].0);
            }
        }
    } else {
        assert(r[fs.len() as int] == f);
    }
}

proof fn lemma_merged_unique(fs: Seq<(Seq<char>, Seq<char>)>)
    ensures
        names_unique(merged(fs)),
    decreases fs.len(),
{
    if fs.len() > 0 {
        lemma_merged_unique(fs.drop_last());
        lemma_set_field(merged(fs.drop_last()), fs.last());
    }
}

/// Last write wins: after the fields `fs` and then `f` are set, the request
/// holds each name once, and the field named as `f` is `f` itself.
pub proof fn last_write_wins(fs: Seq<(Seq<char>, Seq<char>)>, f: (Seq<char>, Seq<char>))
    ensures
        names_unique(merged(fs.push(f))),
        has_name(merged(fs.push(f)), f.0),
        forall|i: int|
            0 <= i < merged(fs.push(f)).len() && (#[trigger] merged(fs.push(f))[i]).0 == f.0
                ==> merged(fs.push(f))[i] == f,
{
    assert(fs.push(f).drop_last() =~= fs);
    lemma_merged_unique(fs);
    lemma_set_field(merged(fs), f);
}

/// Sets `h` into `headers`, whose names are unique.
fn set_header(headers: &mut Vec<ArbitraryHeader>, h: ArbitraryHeader)
    requires
        names_unique(fields_view(old(headers)@)),
    ensures
        fields_view(final(headers)@) == set_field(fields_view(old(headers)@), h@),
        names_unique(fields_view(final(headers)@)),
{
    let ghost fs = fields_view(headers@);
    let mut i: usize = 0;
    while i < headers.len()
        invariant
            i <= headers@.len(),
            fs == fields_view(headers@),
            fs == fields_view(old(headers)@),
            names_unique(fs),
            forall|j: int| 0 <= j < i ==> (#[trigger] fs[j]).0 != h@.0,
        decreases headers@.len() - i,
    {
        if headers[i].name == h.name {
            proof {
                assert(fs[i as int].0 == h@.0);
                assert(has_name(fs, h@.0));
                let c = choose|c: int| 0 <= c < fs.len() && (#[trigger] fs[c]).0 == h@.0;
                assert(c == i);
                assert(set_field(fs, h@) == fs.update(i as int, h@));
            }
            let ghost hv = h@;
            headers.set(i, h);
            assert(fields_view(headers@) =~= fs.update(i as int, hv));
            assert(names_unique(fields_view(headers@)));
            return;
        }
        i = i + 1;
    }
    let ghost hv = h@;
    assert(!has_name(fs, hv.0));
    headers.push(h);
    assert(fields_view(headers@) =~= fs.push(hv));
    assert(names_unique(fields_view(headers@)));
}

/// Parses every raw header argument, in order, and assembles the request. The
/// first argument that does not parse ends the work with `HeaderInvalid`, and
/// no request is made.
pub fn prepare_request(url: String, method: http::Method, header_inputs: Option<Vec<String>>) -> (r:
    Result<RequestSpec, RunError>)
    ensures
        ({
            let raw = match header_inputs {
                Some(v) => strings_view(v@),
                None => Seq::empty(),
            };
            match r {
                Ok(spec) => all_parse(raw) && spec.url@ == url@ && spec.method == method
                    && fields_view(spec.headers@) == merged(parsed_fields(raw)),
                Err(RunError::HeaderInvalid(e)) => !all_parse(raw) && first_error(raw, e@),
                Err(_) => false,
            }
        }),
{
    let inputs = match header_inputs {
        Some(v) => v,
        None => Vec::new(),
    };
    let ghost raw = strings_view(inputs@);
    assert(raw =~= match header_inputs {
        Some(v) => strings_view(v@),
        None => Seq::empty(),
    });
    let mut headers: Vec<ArbitraryHeader> = Vec::new();
    let mut i: usize = 0;
    while i < inputs.len()
        invariant
            i <= inputs@.len(),
            raw == strings_view(inputs@),
            raw == match header_inputs {
                Some(v) => strings_view(v@),
                None => Seq::empty(),
            },
            all_parse(raw.take(i as int)),
            names_unique(fields_view(headers@)),
            fields_view(headers@) == merged(parsed_fields(raw.take(i as int))),
        decreases inputs@.len() - i,
    {
        let parsed = ArbitraryHeader::from_str(inputs[i].as_str());
        assert(raw[i as int] == inputs@[i as int]@);
        match parsed {
            Ok(h) => {
                let ghost hv = h@;
                set_header(&mut headers, h);
                proof {
                    let t = raw.take(i + 1);
                    assert(t.drop_last() =~= raw.take(i as int));
                    assert(parsed_fields(t).drop_last() =~= parsed_fields(raw.take(i as int)));
                    assert(parsed_fields(t).last() == hv);
                    assert forall|j: int| 0 <= j < t.len() implies (#[trigger] parse_outcome(
                        t[j],
                    )) is Ok by {
                        if j < i {
                            assert(t[j] == raw.take(i as int)[j]);
                        }
                    }
                }
                i = i + 1;
            },
            Err(e) => {
                proof {
                    assert(parse_outcome(raw[i as int]) == Err::<(Seq<char>, Seq<char>), HeaderErrorView>(e@));
                    assert(first_error(raw, e@));
                    assert(!all_parse(raw));
                }
                return Err(RunError::HeaderInvalid(e));
            },
        }
    }
    assert(raw.take(i as int) =~= raw);
    Ok(RequestSpec { url, method, headers })
}

} // verus!

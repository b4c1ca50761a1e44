use vstd::prelude::*;

use crate::analysis::MetricWeights;
use crate::scan::bytes_eq;
use vstd::string::StringSliceAdditionalSpecFns;

verus! {

#[derive(Debug, PartialEq, Eq, Clone, Copy, Structural)]
pub enum DSDGenerateError {
    /// A message count and a rate were both given.
    InvalidArgs,
}

/// A generator runs either for a number of messages or at a rate, not both.
pub fn check_generate_args(num_msgs: Option<u32>, rate_given: bool) -> (r: Result<
    (),
    DSDGenerateError,
>)
    ensures
        r is Err <==> (num_msgs is Some && rate_given),
{
    if num_msgs.is_some() && rate_given {
        Err(DSDGenerateError::InvalidArgs)
    } else {
        Ok(())
    }
}

/// True when one of `names` spells one of `words`.
pub open spec fn names_any(names: Seq<Seq<u8>>, words: Seq<Seq<u8>>) -> bool {
    exists|i: int, j: int| 0 <= i < names.len() && 0 <= j < words.len() && #[trigger] names[i]
        == #[trigger] words[j]
}

pub open spec fn str_views<'a>(v: Seq<&'a str>) -> Seq<Seq<u8>> {
    Seq::new(v.len(), |i: int| v[i].spec_bytes())
}

fn contains_any(names: &Vec<&str>, words: &Vec<&[u8]>) -> (r: bool)
    ensures
        r == names_any(str_views(names@), crate::scan::views(words@)),
{
    let ghost nv = str_views(names@);
    let ghost wv = crate::scan::views(words@);
    let mut i: usize = 0;
    while i < names.len()
        invariant
            i <= names.len(),
            nv == str_views(names@),
            wv == crate::scan::views(words@),
            forall|a: int, b: int| 0 <= a < i && 0 <= b < wv.len() ==> nv[a] != wv[b],
        decreases names.len() - i,
    {
        let n = names[i].as_bytes();
        assert(nv[i as int] == n@);
        let mut j: usize = 0;
        while j < words.len()
            invariant
                i < names.len(),
                j <= words.len(),
                nv == str_views(names@),
                wv == crate::scan::views(words@),
                nv[i as int] == n@,
                forall|a: int, b: int| 0 <= a < i && 0 <= b < wv.len() ==> nv[a] != wv[b],
                forall|b: int| 0 <= b < j ==> nv[i as int] != wv[b],
            decreases words.len() - j,
        {
            assert(wv[j as int] == words[j as int]@);
            if bytes_eq(n, words[j]) {
                return true;
            }
            j = j + 1;
        }
        i = i + 1;
    }
    false
}

pub open spec fn weight_if(b: bool) -> u8 {
    if b {
        1
    } else {
        0
    }
}

/// Equal weights for the metric types named (`count` or `c`, `gauge` or `g`, `histogram` or
/// `h`, `set` or `s`, `timing` or `t`, `distribution`, `d` or `sketch`), none for the others.
pub fn metric_weights_for(names: &Vec<&str>) -> (r: MetricWeights)
    ensures
        ({
            let n = str_views(names@);
            &&& r.count == weight_if(names_any(n, seq![seq![0x63u8, 0x6Fu8, 0x75u8, 0x6Eu8, 0x74u8], seq![0x63u8]]))
            &&& r.gauge == weight_if(names_any(n, seq![seq![0x67u8, 0x61u8, 0x75u8, 0x67u8, 0x65u8], seq![0x67u8]]))
            &&& r.histogram == weight_if(names_any(n, seq![seq![0x68u8, 0x69u8, 0x73u8, 0x74u8, 0x6Fu8, 0x67u8, 0x72u8, 0x61u8, 0x6Du8], seq![0x68u8]]))
            &&& r.set == weight_if(names_any(n, seq![seq![0x73u8, 0x65u8, 0x74u8], seq![0x73u8]]))
            &&& r.timer == weight_if(names_any(n, seq![seq![0x74u8, 0x69u8, 0x6Du8, 0x69u8, 0x6Eu8, 0x67u8], seq![0x74u8]]))
            &&& r.distribution == weight_if(names_any(n, seq![seq![0x64u8, 0x69u8, 0x73u8, 0x74u8, 0x72u8, 0x69u8, 0x62u8, 0x75u8, 0x74u8, 0x69u8, 0x6Fu8, 0x6Eu8], seq![0x64u8], seq![0x73u8, 0x6Bu8, 0x65u8, 0x74u8, 0x63u8, 0x68u8]]))
        }),
{
    let count_w: [u8; 5] = [0x63, 0x6F, 0x75, 0x6E, 0x74];
    let c_w: [u8; 1] = [0x63];
    let gauge_w: [u8; 5] = [0x67, 0x61, 0x75, 0x67, 0x65];
    let g_w: [u8; 1] = [0x67];
    let hist_w: [u8; 9] = [0x68, 0x69, 0x73, 0x74, 0x6F, 0x67, 0x72, 0x61, 0x6D];
    let h_w: [u8; 1] = [0x68];
    let set_w: [u8; 3] = [0x73, 0x65, 0x74];
    let s_w: [u8; 1] = [0x73];
    let timing_w: [u8; 6] = [0x74, 0x69, 0x6D, 0x69, 0x6E, 0x67];
    let t_w: [u8; 1] = [0x74];
    let dist_w: [u8; 12] = [0x64, 0x69, 0x73, 0x74, 0x72, 0x69, 0x62, 0x75, 0x74, 0x69, 0x6F, 0x6E];
    let d_w: [u8; 1] = [0x64];
    let sketch_w: [u8; 6] = [0x73, 0x6B, 0x65, 0x74, 0x63, 0x68];
    let count = weight_of(names, count_w.as_slice(), c_w.as_slice(), None);
    let gauge = weight_of(names, gauge_w.as_slice(), g_w.as_slice(), None);
    let histogram = weight_of(names, hist_w.as_slice(), h_w.as_slice(), None);
    let set = weight_of(names, set_w.as_slice(), s_w.as_slice(), None);
    let timer = weight_of(names, timing_w.as_slice(), t_w.as_slice(), None);
    let distribution = weight_of(names, dist_w.as_slice(), d_w.as_slice(), Some(sketch_w.as_slice()));
    assert(count_w@ =~= seq![0x63u8, 0x6Fu8, 0x75u8, 0x6Eu8, 0x74u8]);
    assert(c_w@ =~= seq![0x63u8]);
    assert(gauge_w@ =~= seq![0x67u8, 0x61u8, 0x75u8, 0x67u8, 0x65u8]);
    assert(g_w@ =~= seq![0x67u8]);
    assert(hist_w@ =~= seq![0x68u8, 0x69u8, 0x73u8, 0x74u8, 0x6Fu8, 0x67u8, 0x72u8, 0x61u8, 0x6Du8]);
    assert(h_w@ =~= seq![0x68u8]);
    assert(set_w@ =~= seq![0x73u8, 0x65u8, 0x74u8]);
    assert(s_w@ =~= seq![0x73u8]);
    assert(timing_w@ =~= seq![0x74u8, 0x69u8, 0x6Du8, 0x69u8, 0x6Eu8, 0x67u8]);
    assert(t_w@ =~= seq![0x74u8]);
    assert(dist_w@ =~= seq![0x64u8, 0x69u8, 0x73u8, 0x74u8, 0x72u8, 0x69u8, 0x62u8, 0x75u8, 0x74u8, 0x69u8, 0x6Fu8, 0x6Eu8]);
    assert(d_w@ =~= seq![0x64u8]);
    assert(sketch_w@ =~= seq![0x73u8, 0x6Bu8, 0x65u8, 0x74u8, 0x63u8, 0x68u8]);
    MetricWeights::new(count, gauge, timer, distribution, set, histogram)
}

fn weight_of(names: &Vec<&str>, long: &[u8], short: &[u8], extra: Option<&[u8]>) -> (r: u8)
    ensures
        r == weight_if(names_any(
            str_views(names@),
            match extra {
                Some(x) => seq![long@, short@, x@],
                None => seq![long@, short@],
            },
        )),
{
    let mut words: Vec<&[u8]> = Vec::new();
    words.push(long);
    words.push(short);
    match extra {
        Some(x) => {
            words.push(x);
        },
        None => {},
    }
    let ghost expected = match extra {
        Some(x) => seq![long@, short@, x@],
        None => seq![long@, short@],
    };
    assert(crate::scan::views(words@) =~= expected);
    if contains_any(names, &words) {
        1
    } else {
        0
    }
}

} // verus!

//! Hardware model description: the record served by the model endpoint and
//! the cleaning and parsing of the strings the host provides for it. The
//! probing itself — reading the device-tree, running the architecture and
//! cpu queries — is I/O the caller owns; the library turns the probed text
//! into the record's fields.

use vstd::prelude::*;

use crate::text::{
    lines, lines_spec, spec_split, split, starts_with, starts_with_spec, trim, trim_nuls,
    trim_nuls_spec, trim_spec,
};

verus! {

/// What the host reports itself to be.
pub struct HardwareModel {
    /// Board or product name.
    pub model: String,
    /// Machine architecture.
    pub arch: String,
    /// Marketed processor name.
    pub cpu_name: String,
}

impl HardwareModel {
    /// Assembles the record from the three probed descriptions.
    pub fn new(model: String, arch: String, cpu_name: String) -> (r: HardwareModel)
        ensures
            r.model@ == model@,
            r.arch@ == arch@,
            r.cpu_name@ == cpu_name@,
    {
        HardwareModel { model, arch, cpu_name }
    }
}

/// A probed label, cleaned: whitespace trimmed first, then any NUL padding
/// that firmware strings carry.
pub open spec fn clean_label_spec(s: Seq<char>) -> Seq<char> {
    trim_nuls_spec(trim_spec(s))
}

/// Cleans one probed label: trims whitespace, then NUL padding.
pub fn clean_label(s: &str) -> (r: String)
    ensures
        r@ == clean_label_spec(s@),
{
    let trimmed = trim(s);
    trim_nuls(trimmed.as_str())
}

/// The first line that opens with the processor-name tag, if any.
pub open spec fn find_model_line(ls: Seq<Seq<char>>) -> Option<Seq<char>>
    decreases ls.len(),
{
    if ls.len() == 0 {
        None
    } else if starts_with_spec(ls.first(), "Model name:"@) {
        Some(ls.first())
    } else {
        find_model_line(ls.drop_first())
    }
}

/// The processor name that a cpu query's output denotes: the text after the
/// colon of the first `Model name:` line, cleaned; `Unknown` when no such
/// line exists.
pub open spec fn cpu_name_spec(s: Seq<char>) -> Seq<char> {
    match find_model_line(lines_spec(s)) {
        None => "Unknown"@,
        Some(line) => {
            let kv = spec_split(line, ':');
            if kv.len() >= 2 {
                clean_label_spec(kv[1])
            } else {
                "Unknown"@
            }
        },
    }
}

/// Extracts the processor name from a cpu query's output.
#[verifier::loop_isolation(false)]
pub fn parse_cpu_name(stdout: &str) -> (r: String)
    ensures
        r@ == cpu_name_spec(stdout@),
{
    let ls = lines(stdout);
    let ghost all = lines_spec(stdout@);
    let n = ls.len();
    let mut i: usize = 0;
    proof {
        assert(all.skip(0) =~= all);
    }
    while i < n
        invariant
            i <= n,
            n == all.len(),
            ls.deep_view() == all,
            find_model_line(all) == find_model_line(all.skip(i as int)),
        decreases n - i,
    {
        proof {
            assert(all.skip(i as int).first() == all[i as int]);
            assert(all.skip(i as int).drop_first() =~= all.skip(i + 1));
            assert(ls@[i as int]@ == all[i as int]);
        }
        if starts_with(ls[i].as_str(), "Model name:") {
            let kv = split(ls[i].as_str(), ':');
            proof {
                assert(kv.deep_view() == spec_split(all[i as int], ':'));
            }
            if kv.len() >= 2 {
                proof {
                    assert(kv@[1]@ == kv.deep_view()[1]);
                }
                return clean_label(kv[1].as_str());
            } else {
                return "Unknown".to_owned();
            }
        }
        i += 1;
    }
    proof {
        assert(all.skip(n as int) =~= Seq::<Seq<char>>::empty());
    }
    "Unknown".to_owned()
}

} // verus!
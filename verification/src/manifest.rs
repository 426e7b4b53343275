//! The manifest renderer: a deterministic, byte-exact textual projection of
//! the capability manifest.

use vstd::prelude::*;
use vstd::string::StringExecFns;
use crate::typecheck::TypedProgram;

verus! {

/// The manifest text: the version header, then one `requires=<cap>` line
/// per capability, in manifest order.
pub open spec fn manifest_text(caps: Seq<Seq<char>>) -> Seq<char>
    decreases caps.len(),
{
    if caps.len() == 0 {
        "capability_manifest_v1\n"@
    } else {
        manifest_text(caps.drop_last()) + "requires="@ + caps.last() + "\n"@
    }
}

/// Render the capability manifest of a typed program.
#[verifier::loop_isolation(false)]
pub fn render_manifest(typed: &TypedProgram) -> (r: String)
    ensures
        r@ == manifest_text(typed.manifest@),
{
    let mut out = String::from_str("capability_manifest_v1\n");
    proof {
        assert(typed.manifest@.take(0) =~= Seq::<Seq<char>>::empty());
        assert(manifest_text(Seq::<Seq<char>>::empty()) == "capability_manifest_v1\n"@);
    }
    let mut i: usize = 0;
    while i < typed.manifest.required_caps.len()
        invariant
            0 <= i <= typed.manifest.required_caps.len(),
            out@ == manifest_text(typed.manifest@.take(i as int)),
        decreases typed.manifest.required_caps.len() - i,
    {
        out.append("requires=");
        out.append(typed.manifest.required_caps[i].as_str());
        out.append("\n");
        proof {
            assert(typed.manifest@.take(i + 1).drop_last() =~= typed.manifest@.take(i as int));
            assert(typed.manifest@.take(i + 1).last() == typed.manifest@[i as int]);
        }
        i = i + 1;
    }
    proof {
        assert(typed.manifest@.take(typed.manifest@.len() as int) =~= typed.manifest@);
    }
    out
}

} // verus!

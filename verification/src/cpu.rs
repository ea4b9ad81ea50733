//! Runtime CPU-feature detection for choosing the SIMD width.
//!
//! The host's instruction-set extensions are read from what
//! `cranelift-native` detects when it configures the JIT for this machine;
//! on x86-64 it sets `has_avx2` exactly when the running CPU and operating
//! system support AVX2, and on other architectures there is no such flag.
use vstd::prelude::*;

verus! {

/// The boolean instruction-set flags of the host ISA, as (name, value),
/// from `cranelift_native::builder()` finished with the default shared
/// flags and then `TargetIsa::isa_flags`, each value read with
/// `settings::Value::as_bool` (`false` where it is not a boolean). Empty
/// where the host is not supported. What the flags are depends on the
/// machine, so nothing is stated of them.
#[verifier::external_body]
fn host_isa_flags() -> (r: Vec<(String, bool)>) {
    let flags = cranelift::codegen::settings::Flags::new(cranelift::codegen::settings::builder());
    match cranelift_native::builder().map(|b| b.finish(flags)) {
        Ok(Ok(isa)) => isa.isa_flags().iter().map(|v| (v.name.to_string(), v.as_bool() == Some(true))).collect(),
        _ => Vec::new(),
    }
}

/// The name of the AVX2 flag.
pub open spec fn avx2_flag_name() -> Seq<char> {
    seq!['h', 'a', 's', '_', 'a', 'v', 'x', '2']
}

/// Whether `flags` holds `has_avx2` set to true.
pub open spec fn flags_have_avx2(flags: Seq<(String, bool)>) -> bool {
    exists|k: int| 0 <= k < flags.len() && (#[trigger] flags[k]).0@ == avx2_flag_name() && flags[k].1
}

/// Whether a list of (name, value) ISA flags sets `has_avx2`.
pub fn avx2_enabled(flags: &Vec<(String, bool)>) -> (r: bool)
    ensures
        r == flags_have_avx2(flags@),
{
    let name = String::from_str("has_avx2");
    proof {
        reveal_strlit("has_avx2");
        assert(name@ =~= avx2_flag_name());
    }
    let mut i: usize = 0;
    while i < flags.len()
        invariant
            i <= flags@.len(),
            name@ == avx2_flag_name(),
            forall|k: int| 0 <= k < i ==> !((#[trigger] flags@[k]).0@ == avx2_flag_name() && flags@[k].1),
        decreases flags@.len() - i,
    {
        if flags[i].1 && flags[i].0 == name {
            return true;
        }
        i = i + 1;
    }
    false
}

/// Whether the running CPU supports AVX2; `false` off x86-64.
pub fn has_avx2() -> (r: bool) {
    let flags = host_isa_flags();
    avx2_enabled(&flags)
}

/// The `f64` lane count for a host with or without AVX2: 4 with it, else 2
/// (portable SSE2).
pub fn lanes_for(avx2: bool) -> (r: usize)
    ensures
        r == (if avx2 { 4usize } else { 2usize }),
{
    if avx2 {
        4
    } else {
        2
    }
}

/// The preferred SIMD lane count for `f64` on this host: 4 where AVX2 is
/// available, otherwise 2.
pub fn preferred_f64_lanes() -> (r: usize)
    ensures
        r == 2 || r == 4,
{
    lanes_for(has_avx2())
}

} // verus!

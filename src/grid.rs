use vstd::prelude::*;

use crate::arith::{
    all_positive, dvd, is_common_multiple, lcm_all, lcm_within, lemma_dvd_le, lemma_dvd_mod,
    lemma_lcm_all,
};
use crate::error::MetronomeError;
use crate::signature::TimeSignature;

verus! {

/// The beat units of a signature set.
pub open spec fn units(sigs: Seq<TimeSignature>) -> Seq<nat> {
    sigs.map_values(|s: TimeSignature| s.bottom as nat)
}

/// The set is non-empty and every beat unit is positive.
pub open spec fn units_valid(sigs: Seq<TimeSignature>) -> bool {
    sigs.len() > 0 && forall|i: int| 0 <= i < sigs.len() ==> sigs[i].bottom > 0
}

/// The set is non-empty and every signature is valid.
pub open spec fn signatures_valid(sigs: Seq<TimeSignature>) -> bool {
    sigs.len() > 0 && forall|i: int| 0 <= i < sigs.len() ==> (#[trigger] sigs[i]).valid()
}

/// The common subdivision: the least common multiple of the beat units.
pub open spec fn common_unit(sigs: Seq<TimeSignature>) -> nat {
    lcm_all(units(sigs))
}

/// The beat count of `s` on a grid of `unit` subdivisions per whole note.
pub open spec fn scaled_beats(s: TimeSignature, unit: nat) -> nat {
    (s.top as nat) * (unit / (s.bottom as nat))
}

/// `s` rescaled onto a grid of `unit` subdivisions per whole note.
pub open spec fn rescale(s: TimeSignature, unit: nat) -> TimeSignature {
    TimeSignature { top: scaled_beats(s, unit) as u8, bottom: unit as u8 }
}

/// Every signature of the set, rescaled onto `unit`, keeps a beat count that fits a `u8`.
pub open spec fn rescale_fits(sigs: Seq<TimeSignature>, unit: nat) -> bool {
    forall|i: int| 0 <= i < sigs.len() ==> scaled_beats(#[trigger] sigs[i], unit) <= 255
}

/// `res` is the resolution of `sigs`.
pub open spec fn resolved(sigs: Seq<TimeSignature>, res: Resolution) -> bool {
    &&& signatures_valid(sigs)
    &&& res.common_unit as nat == common_unit(sigs)
    &&& rescale_fits(sigs, common_unit(sigs))
    &&& res.rescaled@ == sigs.map_values(|s: TimeSignature| rescale(s, common_unit(sigs)))
}

/// A signature set expressed on its common subdivision grid.
#[derive(Debug)]
pub struct Resolution {
    pub common_unit: u8,
    pub rescaled: Vec<TimeSignature>,
}

/// The common subdivision of `signatures` (the least common multiple of their beat units).
pub fn find_least_common_denominator(signatures: &Vec<TimeSignature>) -> (r: Result<
    u8,
    MetronomeError,
>)
    ensures
        match r {
            Ok(u) => units_valid(signatures@) && u as nat == common_unit(signatures@),
            Err(MetronomeError::InvalidArgument) => !units_valid(signatures@),
            Err(MetronomeError::ArithmeticOverflow) => units_valid(signatures@) && common_unit(
                signatures@,
            ) > 255,
            Err(_) => false,
        },
{
    if signatures.len() == 0 {
        return Err(MetronomeError::InvalidArgument);
    }
    let mut values: Vec<u64> = Vec::new();
    let mut i: usize = 0;
    while i < signatures.len()
        invariant
            0 <= i <= signatures@.len(),
            values@.len() == i,
            forall|j: int| 0 <= j < i ==> values@[j] == signatures@[j].bottom as u64,
            forall|j: int| 0 <= j < i ==> signatures@[j].bottom > 0,
        decreases signatures@.len() - i,
    {
        let b = signatures[i].bottom;
        if b == 0 {
            return Err(MetronomeError::InvalidArgument);
        }
        values.push(b as u64);
        i = i + 1;
    }
    assert(values@.map_values(|v: u64| v as nat) =~= units(signatures@));
    match lcm_within(&values, 255) {
        Some(l) => Ok(l as u8),
        None => Err(MetronomeError::ArithmeticOverflow),
    }
}

/// Rescales each signature onto a grid of `lcd` subdivisions per whole note.
pub fn transform_to_common_denominator_signature(lcd: u8, signatures: &Vec<TimeSignature>) -> (r:
    Result<Vec<TimeSignature>, MetronomeError>)
    requires
        lcd > 0,
        forall|i: int| 0 <= i < signatures@.len() ==> signatures@[i].bottom > 0 && lcd
            % signatures@[i].bottom == 0,
    ensures
        match r {
            Ok(v) => rescale_fits(signatures@, lcd as nat) && v@ == signatures@.map_values(
                |s: TimeSignature| rescale(s, lcd as nat),
            ),
            Err(MetronomeError::ArithmeticOverflow) => !rescale_fits(signatures@, lcd as nat),
            Err(_) => false,
        },
{
    let mut out: Vec<TimeSignature> = Vec::new();
    let mut i: usize = 0;
    while i < signatures.len()
        invariant
            0 <= i <= signatures@.len(),
            forall|j: int| 0 <= j < signatures@.len() ==> signatures@[j].bottom > 0,
            out@.len() == i,
            forall|j: int| 0 <= j < i ==> out@[j] == rescale(signatures@[j], lcd as nat),
            forall|j: int| 0 <= j < i ==> scaled_beats(#[trigger] signatures@[j], lcd as nat) <= 255,
        decreases signatures@.len() - i,
    {
        let s = signatures[i];
        let factor: u8 = lcd / s.bottom;
        assert((s.top as int) * (factor as int) <= 255 * 255) by (nonlinear_arith)
            requires
                0 <= s.top <= 255,
                0 <= factor <= 255,
        ;
        let top: u16 = s.top as u16 * factor as u16;
        assert(top as nat == scaled_beats(s, lcd as nat));
        if top > 255 {
            return Err(MetronomeError::ArithmeticOverflow);
        }
        out.push(TimeSignature::new(top as u8, lcd));
        i = i + 1;
    }
    assert(out@ =~= signatures@.map_values(|s: TimeSignature| rescale(s, lcd as nat)));
    Ok(out)
}

/// Resolves a signature set onto its common subdivision grid.
pub fn resolve(signatures: &Vec<TimeSignature>) -> (r: Result<Resolution, MetronomeError>)
    ensures
        match r {
            Ok(res) => resolved(signatures@, res),
            Err(MetronomeError::InvalidArgument) => !signatures_valid(signatures@),
            Err(MetronomeError::ArithmeticOverflow) => signatures_valid(signatures@) && (
            common_unit(signatures@) > 255 || !rescale_fits(signatures@, common_unit(signatures@))),
            Err(_) => false,
        },
{
    let mut i: usize = 0;
    while i < signatures.len()
        invariant
            0 <= i <= signatures@.len(),
            forall|j: int| 0 <= j < i ==> (#[trigger] signatures@[j]).valid(),
        decreases signatures@.len() - i,
    {
        if signatures[i].top == 0 || signatures[i].bottom == 0 {
            return Err(MetronomeError::InvalidArgument);
        }
        i = i + 1;
    }
    if signatures.len() == 0 {
        return Err(MetronomeError::InvalidArgument);
    }
    let lcd = find_least_common_denominator(signatures)?;
    proof {
        lemma_common_unit_least(signatures@);
    }
    let rescaled = transform_to_common_denominator_signature(lcd, signatures)?;
    Ok(Resolution { common_unit: lcd, rescaled })
}

/// The common subdivision is a positive multiple of every beat unit, and no smaller positive
/// number is.
pub proof fn lemma_common_unit_least(sigs: Seq<TimeSignature>)
    requires
        units_valid(sigs),
    ensures
        is_common_multiple(common_unit(sigs), units(sigs)),
        forall|i: int| 0 <= i < sigs.len() ==> (common_unit(sigs) % (sigs[i].bottom as nat)) == 0,
        forall|m: nat| #[trigger] is_common_multiple(m, units(sigs)) ==> common_unit(sigs) <= m,
{
    let u = units(sigs);
    assert(all_positive(u));
    lemma_lcm_all(u);
    assert forall|i: int| 0 <= i < sigs.len() implies (common_unit(sigs) % (
    sigs[i].bottom as nat)) == 0 by {
        assert(u[i] == sigs[i].bottom as nat);
        lemma_dvd_mod(u[i], common_unit(sigs));
    }
    assert forall|m: nat| #[trigger] is_common_multiple(m, u) implies common_unit(sigs) <= m by {
        assert(dvd(lcm_all(u) as int, m as int));
        lemma_dvd_le(lcm_all(u) as int, m as int);
    }
}

/// Rescaling a valid set onto its common subdivision keeps every beat count positive.
pub proof fn lemma_scaled_beats_positive(sigs: Seq<TimeSignature>)
    requires
        signatures_valid(sigs),
    ensures
        forall|j: int| 0 <= j < sigs.len() ==> scaled_beats(#[trigger] sigs[j], common_unit(sigs))
            > 0,
{
    assert(units_valid(sigs));
    lemma_common_unit_least(sigs);
    let cu = common_unit(sigs);
    assert forall|j: int| 0 <= j < sigs.len() implies scaled_beats(#[trigger] sigs[j], cu) > 0 by {
        let s = sigs[j];
        assert(s.valid());
        assert(cu % (s.bottom as nat) == 0);
        vstd::arithmetic::div_mod::lemma_fundamental_div_mod(cu as int, s.bottom as int);
        let f = cu / (s.bottom as nat);
        assert(f > 0) by (nonlinear_arith)
            requires
                cu == (s.bottom as nat) * f + cu % (s.bottom as nat),
                cu % (s.bottom as nat) == 0,
                cu > 0,
        ;
        assert(scaled_beats(s, cu) > 0) by (nonlinear_arith)
            requires
                scaled_beats(s, cu) == (s.top as nat) * f,
                s.top > 0,
                f > 0,
        ;
    }
}

/// Resolving is deterministic: two resolutions of one signature set are the same.
pub proof fn lemma_resolve_deterministic(sigs: Seq<TimeSignature>, a: Resolution, b: Resolution)
    requires
        resolved(sigs, a),
        resolved(sigs, b),
    ensures
        a.common_unit == b.common_unit,
        a.rescaled@ == b.rescaled@,
{
}

} // verus!

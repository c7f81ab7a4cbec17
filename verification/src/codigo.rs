//! Samples as the library sees them: the 64-bit IEEE 754 encoding of a
//! double-precision number, held as a plain integer. Bit 63 is the sign; the
//! remaining 63 bits, read as an integer, grow with the magnitude of the
//! number, which is all that ordering and thresholds need.

use vstd::prelude::*;
use crate::erro::RegressaoError;
use crate::erro::Resultado;

verus! {

/// The sign bit of an encoding.
pub const BIT_SINAL: u64 = 0x8000_0000_0000_0000;

/// The bits of an encoding that hold exponent and fraction.
pub const BITS_MAGNITUDE: u64 = 0x7FFF_FFFF_FFFF_FFFF;

/// The magnitude bits of infinity; every larger magnitude encodes no number.
pub const MAGNITUDE_INFINITA: u64 = 0x7FF0_0000_0000_0000;

/// The magnitude bits of the machine epsilon, two to the power of -52.
pub const MAGNITUDE_EPSILON: u64 = 0x3CB0_0000_0000_0000;

/// Exponent and fraction of an encoding, as one integer.
pub open spec fn magnitude(codigo: u64) -> u64 {
    codigo & BITS_MAGNITUDE
}

/// Whether the sign bit of an encoding is set.
pub open spec fn negativo(codigo: u64) -> bool {
    codigo & BIT_SINAL != 0
}

/// Whether an encoding stands for no number at all.
pub open spec fn indefinido(codigo: u64) -> bool {
    magnitude(codigo) > MAGNITUDE_INFINITA
}

/// Whether the encoded number is closer to zero than the machine epsilon, by
/// absolute value. An encoding that stands for no number is not.
pub open spec fn desprezivel(codigo: u64) -> bool {
    magnitude(codigo) < MAGNITUDE_EPSILON
}

/// The place of an encoded number on the number line: numbers compare as their
/// places do. Both zeros share the place 0.
pub open spec fn posto(codigo: u64) -> int {
    if negativo(codigo) {
        -(magnitude(codigo) as int)
    } else {
        magnitude(codigo) as int
    }
}

/// Whether every encoding of a sequence stands for a number.
pub open spec fn todos_definidos(codigos: Seq<u64>) -> bool {
    forall|i: int| 0 <= i < codigos.len() ==> !indefinido(#[trigger] codigos[i])
}

/// What the test of a sum of squared deviations answers: a sum closer to zero
/// than the machine epsilon is refused as zero variance, every other encoding
/// is admitted.
pub open spec fn admissao_dispersao(soma: u64) -> Resultado<()> {
    if desprezivel(soma) {
        Err(RegressaoError::VarianciaZero)
    } else {
        Ok(())
    }
}

/// Tells whether an encoding stands for no number.
pub fn eh_indefinido(codigo: u64) -> (r: bool)
    ensures
        r == indefinido(codigo),
{
    (codigo & BITS_MAGNITUDE) > MAGNITUDE_INFINITA
}

/// Computes the place of an encoded number on the number line.
pub fn calcular_posto(codigo: u64) -> (r: i64)
    ensures
        r == posto(codigo),
{
    let m: u64 = codigo & BITS_MAGNITUDE;
    assert(m <= 0x7FFF_FFFF_FFFF_FFFFu64) by (bit_vector)
        requires
            m == codigo & 0x7FFF_FFFF_FFFF_FFFFu64,
    ;
    let p: i64 = m as i64;
    if codigo & BIT_SINAL != 0 {
        -p
    } else {
        p
    }
}

/// Tells whether every encoding of a vector stands for a number.
pub fn verificar_definidos(codigos: &Vec<u64>) -> (r: bool)
    ensures
        r == todos_definidos(codigos@),
{
    let mut i: usize = 0;
    while i < codigos.len()
        invariant
            i <= codigos.len(),
            forall|j: int| 0 <= j < i ==> !indefinido(#[trigger] codigos@[j]),
        decreases codigos.len() - i,
    {
        if eh_indefinido(codigos[i]) {
            return false;
        }
        i += 1;
    }
    true
}

/// Decides whether a sum of squared deviations, given by its encoding, is
/// large enough to divide by.
pub fn validar_dispersao(soma: u64) -> (r: Resultado<()>)
    ensures
        r == admissao_dispersao(soma),
{
    if (soma & BITS_MAGNITUDE) < MAGNITUDE_EPSILON {
        Err(RegressaoError::VarianciaZero)
    } else {
        Ok(())
    }
}

/// Zero, of either sign, is negligible, and so are the two zeros alone among
/// the encodings of place 0.
pub proof fn lema_zero_desprezivel(codigo: u64)
    requires
        posto(codigo) == 0,
    ensures
        desprezivel(codigo),
        codigo == 0 || codigo == BIT_SINAL,
{
    assert(codigo & 0x7FFF_FFFF_FFFF_FFFFu64 == 0 ==> codigo == 0 || codigo
        == 0x8000_0000_0000_0000u64) by (bit_vector);
}

/// Whether a number is negligible depends on its distance from zero alone:
/// two encodings that differ in the sign bit only are judged alike.
pub proof fn lema_desprezivel_simetrico(codigo: u64)
    ensures
        desprezivel(codigo) == desprezivel(codigo ^ BIT_SINAL),
        posto(codigo ^ BIT_SINAL) == -posto(codigo),
{
    assert((codigo ^ 0x8000_0000_0000_0000u64) & 0x7FFF_FFFF_FFFF_FFFFu64 == codigo
        & 0x7FFF_FFFF_FFFF_FFFFu64) by (bit_vector);
    assert(((codigo ^ 0x8000_0000_0000_0000u64) & 0x8000_0000_0000_0000u64 != 0) == (codigo
        & 0x8000_0000_0000_0000u64 == 0)) by (bit_vector);
}

/// Among numbers, a negligible one lies strictly between minus epsilon and
/// epsilon on the number line, and no other does.
pub proof fn lema_desprezivel_por_posto(codigo: u64)
    ensures
        desprezivel(codigo) <==> -(MAGNITUDE_EPSILON as int) < posto(codigo) < MAGNITUDE_EPSILON
            as int,
{
}

} // verus!

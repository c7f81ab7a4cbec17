use regressao_linear::codigo::calcular_posto;
use regressao_linear::codigo::eh_indefinido;
use regressao_linear::codigo::validar_dispersao;
use regressao_linear::codigo::verificar_definidos;
use regressao_linear::codigo::BITS_MAGNITUDE;
use regressao_linear::codigo::BIT_SINAL;
use regressao_linear::codigo::MAGNITUDE_EPSILON;
use regressao_linear::codigo::MAGNITUDE_INFINITA;
use regressao_linear::RegressaoError;

fn numeros() -> Vec<f64> {
    vec![
        f64::NEG_INFINITY,
        f64::MIN,
        -1e10,
        -2.5,
        -1.0,
        -f64::EPSILON,
        -f64::MIN_POSITIVE,
        -5e-324,
        -0.0,
        0.0,
        5e-324,
        f64::MIN_POSITIVE,
        1e-10,
        f64::EPSILON / 2.0,
        f64::EPSILON,
        0.1,
        1.0,
        1.0 + f64::EPSILON,
        2.5,
        1e10,
        f64::MAX,
        f64::INFINITY,
    ]
}

#[test]
fn constantes_sao_as_da_norma() {
    assert_eq!(MAGNITUDE_EPSILON, f64::EPSILON.to_bits());
    assert_eq!(MAGNITUDE_INFINITA, f64::INFINITY.to_bits());
    assert_eq!(BIT_SINAL, (-0.0f64).to_bits());
    assert_eq!(BITS_MAGNITUDE, !BIT_SINAL);
}

#[test]
fn indefinido_e_o_que_nao_e_numero() {
    assert!(eh_indefinido(f64::NAN.to_bits()));
    assert!(eh_indefinido((-f64::NAN).to_bits()));
    assert!(eh_indefinido(0x7FF0_0000_0000_0001));
    assert!(eh_indefinido(0xFFFF_FFFF_FFFF_FFFF));
    assert!(eh_indefinido((0.0f64 / 0.0).to_bits()));
    for x in numeros() {
        assert_eq!(eh_indefinido(x.to_bits()), x.is_nan());
        assert!(!eh_indefinido(x.to_bits()));
    }
}

#[test]
fn posto_ordena_como_os_numeros() {
    let ns = numeros();
    for &a in ns.iter() {
        for &b in ns.iter() {
            let pa = calcular_posto(a.to_bits());
            let pb = calcular_posto(b.to_bits());
            assert_eq!(a < b, pa < pb, "{} < {}", a, b);
            assert_eq!(a == b, pa == pb, "{} == {}", a, b);
        }
    }
}

#[test]
fn posto_de_valores_conhecidos() {
    assert_eq!(calcular_posto(0.0f64.to_bits()), 0);
    assert_eq!(calcular_posto((-0.0f64).to_bits()), 0);
    assert_eq!(calcular_posto(5e-324f64.to_bits()), 1);
    assert_eq!(calcular_posto((-5e-324f64).to_bits()), -1);
    assert_eq!(calcular_posto(1.0f64.to_bits()), 0x3FF0_0000_0000_0000);
    assert_eq!(calcular_posto((-1.0f64).to_bits()), -0x3FF0_0000_0000_0000);
    assert_eq!(calcular_posto(f64::INFINITY.to_bits()), 0x7FF0_0000_0000_0000);
    assert_eq!(calcular_posto(u64::MAX), -0x7FFF_FFFF_FFFF_FFFF);
}

#[test]
fn definidos_so_sem_indefinido() {
    let todos: Vec<u64> = numeros().iter().map(|x| x.to_bits()).collect();
    assert!(verificar_definidos(&todos));
    assert!(verificar_definidos(&vec![]));
    let mut com_nan = todos.clone();
    com_nan.push(f64::NAN.to_bits());
    assert!(!verificar_definidos(&com_nan));
    let mut no_inicio = vec![f64::NAN.to_bits()];
    no_inicio.extend(todos.iter());
    assert!(!verificar_definidos(&no_inicio));
}

#[test]
fn dispersao_desprezivel_abaixo_de_epsilon() {
    for x in numeros() {
        let esperado = if x.abs() < f64::EPSILON {
            Err(RegressaoError::VarianciaZero)
        } else {
            Ok(())
        };
        assert_eq!(validar_dispersao(x.to_bits()), esperado, "{}", x);
    }
}

#[test]
fn dispersao_no_limite() {
    assert_eq!(validar_dispersao(f64::EPSILON.to_bits()), Ok(()));
    assert_eq!(validar_dispersao((-f64::EPSILON).to_bits()), Ok(()));
    assert_eq!(
        validar_dispersao(f64::EPSILON.to_bits() - 1),
        Err(RegressaoError::VarianciaZero)
    );
    assert_eq!(
        validar_dispersao((-f64::EPSILON).to_bits() - 1),
        Err(RegressaoError::VarianciaZero)
    );
    assert_eq!(validar_dispersao(0.0f64.to_bits()), Err(RegressaoError::VarianciaZero));
    assert_eq!(validar_dispersao((-0.0f64).to_bits()), Err(RegressaoError::VarianciaZero));
}

#[test]
fn dispersao_indefinida_nao_e_desprezivel() {
    let nan = f64::NAN;
    assert!(!(nan.abs() < f64::EPSILON));
    assert_eq!(validar_dispersao(nan.to_bits()), Ok(()));
    assert_eq!(validar_dispersao(f64::INFINITY.to_bits()), Ok(()));
}

#[test]
fn test_variancia_zero() {
    let x = vec![5.0, 5.0, 5.0, 5.0];
    let n = x.len() as f64;
    let media_x = x.iter().sum::<f64>() / n;
    let mut soma_xx = 0.0;
    for xi in x.iter() {
        let diff_x = xi - media_x;
        soma_xx += diff_x * diff_x;
    }
    let resultado = validar_dispersao(soma_xx.to_bits());

    assert!(matches!(resultado, Err(RegressaoError::VarianciaZero)));
}

#[test]
fn test_casos_extremos_numericos() {
    let y_pequenos = vec![1e-10, 2e-10, 3e-10, 4e-10];
    let y_grandes = vec![1e10, 2e10, 3e10, 4e10];
    for y in [y_pequenos, y_grandes] {
        let n = y.len() as f64;
        let media_x = (0..y.len()).map(|i| i as f64).sum::<f64>() / n;
        let mut soma_xx = 0.0;
        for i in 0..y.len() {
            let diff_x = i as f64 - media_x;
            soma_xx += diff_x * diff_x;
        }
        assert_eq!(soma_xx, 5.0);
        let resultado = regressao_linear::erro::validar_serie(y.len())
            .and_then(|_| validar_dispersao(soma_xx.to_bits()));
        assert!(resultado.is_ok());
    }
}

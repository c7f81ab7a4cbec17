use regressao_linear::erro::validar_amostra;
use regressao_linear::erro::validar_metrica;
use regressao_linear::erro::validar_pares;
use regressao_linear::erro::validar_serie;
use regressao_linear::erro::MINIMO_AMOSTRAS;
use regressao_linear::RegressaoError;

#[test]
fn test_regressao_linear_dados_vazios() {
    let y: Vec<f64> = vec![];
    let resultado = validar_serie(y.len());

    assert!(matches!(resultado, Err(RegressaoError::DadosVazios)));
}

#[test]
fn test_regressao_linear_dados_insuficientes() {
    let y = vec![5.0];
    let resultado = validar_serie(y.len());

    assert!(matches!(resultado, Err(RegressaoError::DadosInsuficientes)));
}

#[test]
fn test_regressao_linear_xy_tamanhos_diferentes() {
    let x = vec![1.0, 2.0];
    let y = vec![1.0, 2.0, 3.0];
    let resultado = validar_pares(x.len(), y.len());

    assert!(matches!(resultado, Err(RegressaoError::TamanhosDiferentes)));
}

#[test]
fn serie_de_dois_ou_mais_e_admitida() {
    assert_eq!(MINIMO_AMOSTRAS, 2);
    assert_eq!(validar_serie(2), Ok(()));
    assert_eq!(validar_serie(5), Ok(()));
    assert_eq!(validar_serie(usize::MAX), Ok(()));
}

#[test]
fn pares_vazios_antes_de_tamanhos_diferentes() {
    assert_eq!(validar_pares(0, 0), Err(RegressaoError::DadosVazios));
    assert_eq!(validar_pares(0, 3), Err(RegressaoError::DadosVazios));
    assert_eq!(validar_pares(3, 0), Err(RegressaoError::DadosVazios));
    assert_eq!(validar_pares(1, 3), Err(RegressaoError::TamanhosDiferentes));
    assert_eq!(validar_pares(3, 2), Err(RegressaoError::TamanhosDiferentes));
}

#[test]
fn par_unico_e_insuficiente() {
    assert_eq!(validar_pares(1, 1), Err(RegressaoError::DadosInsuficientes));
    assert_eq!(validar_pares(2, 2), Ok(()));
    assert_eq!(validar_pares(4, 4), Ok(()));
}

#[test]
fn serie_e_pares_recusam_pelo_mesmo_motivo() {
    for n in 0..6usize {
        assert_eq!(validar_serie(n), validar_pares(n, n));
    }
}

#[test]
fn metrica_aceita_um_unico_valor() {
    assert_eq!(validar_metrica(1, 1), Ok(()));
    assert_eq!(validar_metrica(4, 4), Ok(()));
}

#[test]
fn metrica_recusa_vazio_e_tamanhos_diferentes() {
    assert_eq!(validar_metrica(0, 0), Err(RegressaoError::DadosVazios));
    assert_eq!(validar_metrica(0, 2), Err(RegressaoError::DadosVazios));
    assert_eq!(validar_metrica(2, 0), Err(RegressaoError::DadosVazios));
    assert_eq!(validar_metrica(2, 3), Err(RegressaoError::TamanhosDiferentes));
    assert_eq!(validar_metrica(3, 2), Err(RegressaoError::TamanhosDiferentes));
}

#[test]
fn o_que_o_ajuste_admite_as_metricas_admitem() {
    for n in 0..6usize {
        if validar_serie(n).is_ok() {
            assert_eq!(validar_metrica(n, n), Ok(()));
            assert_eq!(validar_amostra(n), Ok(()));
        }
    }
}

#[test]
fn amostra_vazia_e_recusada() {
    assert_eq!(validar_amostra(0), Err(RegressaoError::DadosVazios));
    assert_eq!(validar_amostra(1), Ok(()));
    assert_eq!(validar_amostra(7), Ok(()));
}

#[test]
fn mensagem_de_cada_erro() {
    assert_eq!(
        RegressaoError::DadosInsuficientes.mensagem(),
        "Dados insuficientes para regressão"
    );
    assert_eq!(RegressaoError::DadosVazios.mensagem(), "Conjunto de dados vazio");
    assert_eq!(RegressaoError::VarianciaZero.mensagem(), "Variância zero nos dados");
    assert_eq!(
        RegressaoError::TamanhosDiferentes.mensagem(),
        "Vetores com tamanhos diferentes"
    );
}

#[test]
fn erros_comparam_e_copiam() {
    let e = RegressaoError::VarianciaZero;
    assert_eq!(e.clone(), RegressaoError::VarianciaZero);
    assert_ne!(e, RegressaoError::DadosVazios);
    assert_eq!(format!("{:?}", e), "VarianciaZero");
}

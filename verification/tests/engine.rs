use linreg::engine::RegError;
use linreg::engine::intercept;
use linreg::engine::mean;
use linreg::engine::mse;
use linreg::engine::predict;
use linreg::engine::r_squared;
use linreg::engine::slope;
use linreg::rational::Rational;
use linreg::sums::DataPoint;

/// The real number a rational denotes (exact for the small values used here).
fn val(r: Rational) -> f64 {
    r.num as f64 / r.den as f64
}

#[test]
fn test_calc_media() {
    let valores = vec![1, 2, 3, 4, 5];
    let resultado = val(mean(&valores).unwrap());
    assert_eq!(resultado, 3.0);
}

#[test]
fn test_calc_media_iguais() {
    let valores = vec![9, 9, 9, 9, 9];
    let resultado = val(mean(&valores).unwrap());
    assert_eq!(resultado, 9.0);
}

#[test]
fn test_calc_media_unico_valor() {
    let valores = vec![5];
    let resultado = val(mean(&valores).unwrap());
    assert_eq!(resultado, 5.0);
}

#[test]
fn test_calc_media_negativos() {
    let valores = vec![-2, -4, -6];
    let resultado = val(mean(&valores).unwrap());
    assert_eq!(resultado, -4.0);
}

#[test]
fn test_calc_media_negativos_positivos() {
    let valores = vec![-2, 4];
    let resultado = val(mean(&valores).unwrap());
    assert_eq!(resultado, 1.0);
}

#[test]
fn test_prever_valor() {
    let intercepto = Rational::from_int(10);
    let inclinacao = Rational::from_int(5);
    let mes = Rational::from_int(2);
    let resultado = val(predict(intercepto, inclinacao, mes).unwrap());
    assert_eq!(resultado, 20.0);
}

#[test]
fn test_mse_e_r2_simples() {
    let dados = vec![
        DataPoint { x: 1, y: 2 },
        DataPoint { x: 2, y: 4 },
        DataPoint { x: 3, y: 6 },
    ];
    let inclinacao = slope(&dados).unwrap();
    let intercepto = intercept(&dados, inclinacao).unwrap();
    let mse_v = val(mse(&dados, inclinacao, intercepto).unwrap());
    let r2 = val(r_squared(&dados, inclinacao, intercepto).unwrap());

    assert!(mse_v < 1e-6);
    assert!((r2 - 1.0).abs() < 1e-6);
}

#[test]
fn test_calc_inclinacao_simples() {
    let dados = vec![
        DataPoint { x: 1, y: 2 },
        DataPoint { x: 2, y: 4 },
        DataPoint { x: 3, y: 6 },
    ];
    let resultado = val(slope(&dados).unwrap());
    let esperado = 2.0;
    assert!(
        (resultado - esperado).abs() < 1e-6,
        "Inclinação incorreta: esperada {}, obtida {}",
        esperado,
        resultado
    );
}

#[test]
fn test_calc_intercepto_simples() {
    let dados = vec![
        DataPoint { x: 1, y: 3 },
        DataPoint { x: 2, y: 5 },
        DataPoint { x: 3, y: 7 },
    ];
    let inclinacao = slope(&dados).unwrap();
    let resultado = val(intercept(&dados, inclinacao).unwrap());
    let esperado = 1.0;
    assert!(
        (resultado - esperado).abs() < 1e-6,
        "Intercepto incorreto: esperado {}, obtido {}",
        esperado,
        resultado
    );
}

#[test]
fn test_mean_empty_is_invalid_input() {
    let valores: Vec<i32> = vec![];
    assert_eq!(mean(&valores), Err(RegError::InvalidInput));
}

#[test]
fn test_slope_empty_is_invalid_input() {
    let dados: Vec<DataPoint> = vec![];
    assert_eq!(slope(&dados), Err(RegError::InvalidInput));
}

#[test]
fn test_single_point_boundary() {
    // One point: the mean is well defined, while the slope and R squared hit
    // the degenerate-input policy (zero variance in either column).
    let dados = vec![DataPoint { x: 5, y: 7 }];
    assert_eq!(val(mean(&vec![7]).unwrap()), 7.0);
    assert_eq!(slope(&dados), Err(RegError::DegenerateInput));
    let line = Rational::from_int(0);
    assert_eq!(
        r_squared(&dados, line, line),
        Err(RegError::DegenerateInput)
    );
}

#[test]
fn test_slope_constant_x_degenerate() {
    let dados = vec![
        DataPoint { x: 2, y: 1 },
        DataPoint { x: 2, y: 5 },
        DataPoint { x: 2, y: 9 },
    ];
    assert_eq!(slope(&dados), Err(RegError::DegenerateInput));
}

#[test]
fn test_r2_constant_y_degenerate() {
    let dados = vec![
        DataPoint { x: 1, y: 4 },
        DataPoint { x: 2, y: 4 },
        DataPoint { x: 3, y: 4 },
    ];
    let sl = Rational::from_int(0);
    let ic = Rational::from_int(4);
    assert_eq!(r_squared(&dados, sl, ic), Err(RegError::DegenerateInput));
}

#[test]
fn test_intercept_overflow_reported() {
    let dados = vec![DataPoint { x: 1, y: 2 }];
    let huge = Rational::new(i128::MAX, i128::MAX);
    assert_eq!(intercept(&dados, huge), Err(RegError::Overflow));
}

#[test]
fn test_predict_overflow_reported() {
    let ic = Rational::new(i128::MAX, 1);
    let sl = Rational::from_int(1);
    let x = Rational::from_int(2);
    assert_eq!(predict(ic, sl, x), Err(RegError::Overflow));
}

#[test]
fn test_idempotence_bit_identical() {
    let dados = vec![
        DataPoint { x: 1, y: 1 },
        DataPoint { x: 2, y: 3 },
        DataPoint { x: 3, y: 2 },
    ];
    let valores = vec![1, 3, 2];
    assert_eq!(mean(&valores), mean(&valores));
    let sl = slope(&dados).unwrap();
    assert_eq!(slope(&dados), slope(&dados));
    let ic = intercept(&dados, sl).unwrap();
    assert_eq!(intercept(&dados, sl), intercept(&dados, sl));
    let x = Rational::from_int(4);
    assert_eq!(predict(ic, sl, x), predict(ic, sl, x));
    assert_eq!(mse(&dados, sl, ic), mse(&dados, sl, ic));
    assert_eq!(r_squared(&dados, sl, ic), r_squared(&dados, sl, ic));
}

#[test]
fn test_r2_at_most_one_imperfect_fit() {
    // An imperfect fit: R squared stays strictly below one.
    let dados = vec![
        DataPoint { x: 1, y: 1 },
        DataPoint { x: 2, y: 3 },
        DataPoint { x: 3, y: 2 },
    ];
    let sl = slope(&dados).unwrap();
    let ic = intercept(&dados, sl).unwrap();
    let r2 = val(r_squared(&dados, sl, ic).unwrap());
    assert!(r2 <= 1.0);
    assert!(r2 < 1.0);
    assert!(val(mse(&dados, sl, ic).unwrap()) > 0.0);
}

#[test]
fn test_slope_exact_value() {
    // slope_num / slope_den for {(1,3),(2,5),(3,7)} is 12 / 6, exactly 2.
    let dados = vec![
        DataPoint { x: 1, y: 3 },
        DataPoint { x: 2, y: 5 },
        DataPoint { x: 3, y: 7 },
    ];
    let sl = slope(&dados).unwrap();
    assert_eq!(sl.num, 12);
    assert_eq!(sl.den, 6);
}

#[test]
fn test_pipeline_fixed_dataset() {
    // The sales example with values held in tenths of a unit: months 1..3,
    // observed 90.0, 117.5, 145.0.  Slope and intercept come out scaled by
    // ten, the prediction for month 6 too; the fit is perfect.
    let dados = vec![
        DataPoint { x: 1, y: 900 },
        DataPoint { x: 2, y: 1175 },
        DataPoint { x: 3, y: 1450 },
    ];
    let sl = slope(&dados).unwrap();
    let ic = intercept(&dados, sl).unwrap();
    assert_eq!(val(sl) / 10.0, 27.5);
    assert_eq!(val(ic) / 10.0, 62.5);
    let p = predict(ic, sl, Rational::from_int(6)).unwrap();
    assert_eq!(val(p) / 10.0, 227.5);
    assert_eq!(val(mse(&dados, sl, ic).unwrap()), 0.0);
    assert_eq!(val(r_squared(&dados, sl, ic).unwrap()), 1.0);
}

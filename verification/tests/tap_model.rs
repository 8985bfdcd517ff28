use djimic::tap_model::{validate, ModelShape, Rng, DEFAULT_SEED, FEATURE_SCHEMA_VERSION};

fn good() -> ModelShape {
    ModelShape {
        feature_schema_version: FEATURE_SCHEMA_VERSION,
        n_features: 26,
        n_hidden: 24,
        n_classes: 2,
        n_bands: 12,
        conv_channels: 6,
        conv_kernel: 5,
        conv_w_rows: vec![5; 6],
        conv_b_len: 6,
        w1_rows: vec![24; 20],
        b1_len: 24,
        w2_rows: vec![2; 24],
        b2_len: 2,
        mean_len: 26,
        std_len: 26,
        class_names_len: 2,
        std_positive_finite: true,
    }
}

fn err(m: ModelShape) -> String {
    validate(&m).err().unwrap()
}

#[test]
fn a_consistent_model_validates() {
    assert!(validate(&good()).is_ok());
    let mut dense = good();
    dense.n_bands = 0;
    dense.conv_channels = 0;
    dense.conv_kernel = 0;
    dense.conv_w_rows = vec![];
    dense.conv_b_len = 0;
    dense.w1_rows = vec![24; 26];
    assert!(validate(&dense).is_ok());
}

#[test]
fn each_inconsistency_has_its_message() {
    let mut m = good();
    m.feature_schema_version = 1;
    assert_eq!(err(m), "feature schema mismatch: file has 1, this build expects 2");
    let mut m = good();
    m.n_classes = 1;
    assert_eq!(err(m), "degenerate dimensions: n_features=26 n_hidden=24 n_classes=1");
    let mut m = good();
    m.n_bands = 27;
    assert_eq!(err(m), "n_bands exceeds n_features");
    let mut m = good();
    m.conv_kernel = 4;
    assert_eq!(err(m), "conv_kernel must be a positive odd number");
    let mut m = good();
    m.conv_channels = 0;
    assert_eq!(err(m), "conv_channels must be positive when n_bands > 0");
    let mut m = good();
    m.conv_w_rows[3] = 4;
    assert_eq!(err(m), "conv_w shape mismatch");
    let mut m = good();
    m.conv_b_len = 5;
    assert_eq!(err(m), "conv_b shape mismatch");
    let mut m = good();
    m.n_bands = 0;
    assert_eq!(err(m), "conv fields must be empty/zero when n_bands is 0");
    let mut m = good();
    m.w1_rows.push(24);
    assert_eq!(err(m), "w1 shape mismatch");
    let mut m = good();
    m.b1_len = 1;
    assert_eq!(err(m), "b1 shape mismatch");
    let mut m = good();
    m.w2_rows[0] = 3;
    assert_eq!(err(m), "w2 shape mismatch");
    let mut m = good();
    m.b2_len = 3;
    assert_eq!(err(m), "b2 shape mismatch");
    let mut m = good();
    m.std_len = 25;
    assert_eq!(err(m), "mean/std shape mismatch");
    let mut m = good();
    m.class_names_len = 3;
    assert_eq!(err(m), "class_names shape mismatch");
    let mut m = good();
    m.std_positive_finite = false;
    assert_eq!(err(m), "std must be positive and finite");
}

#[test]
fn the_generator_replaces_a_zero_seed_and_steps_by_xorshift() {
    assert_eq!(Rng::new(0).state, DEFAULT_SEED);
    assert_eq!(Rng::new(7).state, 7);
    let mut r = Rng::new(1);
    assert_eq!(r.next_u64(), 1082269761);
    assert_eq!(r.next_u64(), 1152992998833853505);
    let mut d = Rng::new(0);
    assert_eq!(d.next_u64(), 15860402102123842989);
}

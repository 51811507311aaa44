use ir_emitter::analyzer::{analyze_step, Image, IsIrWorking, Message, StreamAnalyzer};

fn create_image(width: u32, height: u32, greyscale: u8) -> Image {
    let pixels = vec![greyscale; (width * height) as usize];
    Image::new(width, height, pixels).unwrap()
}

#[test]
fn test_new() {
    let analyzer = StreamAnalyzer::new(10);
    assert_eq!(analyzer.ref_intensity_var_coef(), 10);
    assert!(analyzer.image_intensity().is_none());
    assert!(analyzer.intensity_diff().is_none());
    assert_eq!(analyzer.intensity_var_sum(), 0);
    assert!(analyzer.ref_intensity_var_mean().is_none());
}

#[test]
fn test_compute_intensity() {
    let image = create_image(2, 1, 50); // 2 pixels, each with intensity 50
    let intensity = StreamAnalyzer::compute_intensity(&image);
    assert_eq!(intensity, vec![150, 150]);
}

#[test]
fn test_compute_intensities_diff() {
    let intensity0 = vec![100, 200, 50];
    let intensity1 = vec![110, 190, 55];
    let diff = StreamAnalyzer::compute_intensities_diff(&intensity0, &intensity1);
    // (100 - 110) + (200 - 190) + (50 - 55) = -10 + 10 - 5 = -5
    assert_eq!(diff, -5);
}

#[test]
fn test_compute_intensities_variation() {
    let var1 = StreamAnalyzer::compute_intensities_variation(100, 150);
    assert_eq!(var1, 50);

    let var2 = StreamAnalyzer::compute_intensities_variation(150, 100);
    assert_eq!(var2, 50);

    let var3 = StreamAnalyzer::compute_intensities_variation(-10, 10);
    assert_eq!(var3, 20);
}

#[test]
fn test_feed_wrong_size() {
    let mut analyzer = StreamAnalyzer::new(1);
    analyzer.feed(&create_image(5, 5, 0)).unwrap();
    let result = analyzer.feed(&create_image(4, 4, 0));
    assert!(result.is_err());
}

#[test]
fn test_feed_sequence() {
    let mut analyzer = StreamAnalyzer::new(1);
    // Frame 0
    analyzer.feed(&create_image(2, 1, 10)).unwrap();
    assert_eq!(analyzer.image_intensity().cloned(), Some(vec![30, 30]));
    assert_eq!(analyzer.intensity_diff(), None);
    assert_eq!(analyzer.intensity_var_sum(), 0);

    // Frame 1
    analyzer.feed(&create_image(2, 1, 20)).unwrap();
    let diff1 = (30 - 60) + (30 - 60); // -60
    assert_eq!(analyzer.image_intensity().cloned(), Some(vec![60, 60]));
    assert_eq!(analyzer.intensity_diff(), Some(diff1));
    assert_eq!(analyzer.intensity_var_sum(), 0); // No variation yet

    // Frame 2
    analyzer.feed(&create_image(2, 1, 15)).unwrap();
    let diff2 = (60 - 45) + (60 - 45); // 30
    let var = (diff2 as i64 - diff1 as i64).unsigned_abs(); // |30 - (-60)| = 90
    assert_eq!(analyzer.image_intensity().cloned(), Some(vec![45, 45]));
    assert_eq!(analyzer.intensity_diff(), Some(diff2));
    assert_eq!(analyzer.intensity_var_sum(), var);
}

#[test]
fn test_start_analyzing() {
    let mut analyzer = StreamAnalyzer::new(1);
    analyzer.feed(&create_image(2, 1, 10)).unwrap();
    analyzer.feed(&create_image(2, 1, 20)).unwrap();
    analyzer.feed(&create_image(2, 1, 30)).unwrap();
    analyzer.start_analyzing().unwrap();
    // The first call fixed the baseline: diff1 = -60, diff2 = -60, so the
    // accumulated variation is 0 and the mean is 0.
    assert_eq!(analyzer.ref_intensity_var_mean(), Some(0));

    assert!(analyzer.image_intensity().is_none());
    assert!(analyzer.intensity_diff().is_none());
    assert_eq!(analyzer.intensity_var_sum(), 0);

    // A second call clears again but never recomputes the baseline.
    analyzer.feed(&create_image(2, 1, 10)).unwrap();
    analyzer.feed(&create_image(2, 1, 80)).unwrap();
    analyzer.feed(&create_image(2, 1, 10)).unwrap();
    analyzer.start_analyzing().unwrap();
    assert_eq!(analyzer.ref_intensity_var_mean(), Some(0)); // Should not be recomputed
    assert!(analyzer.image_intensity().is_none());
    assert!(analyzer.intensity_diff().is_none());
    assert_eq!(analyzer.intensity_var_sum(), 0);
}

#[test]
fn test_start_analyzing_no_image() {
    let mut analyzer = StreamAnalyzer::new(1);
    assert!(analyzer.start_analyzing().is_err());
}

#[test]
fn test_save_intensity_var_sum() {
    let mut analyzer = StreamAnalyzer::new(5);
    analyzer.feed(&create_image(2, 1, 10)).unwrap();
    analyzer.feed(&create_image(2, 1, 20)).unwrap();
    analyzer.feed(&create_image(2, 1, 10)).unwrap();
    // diff1 = (30-60)*2 = -60
    // diff2 = (60-30)*2 = 60
    // var = |60 - (-60)| = 120
    assert_eq!(analyzer.intensity_var_sum(), 120);

    analyzer.start_analyzing().unwrap();

    assert_eq!(analyzer.ref_intensity_var_mean(), Some(200)); // 120 * 5 / 3 = 200
    // Check that the running statistic was cleared
    assert!(analyzer.image_intensity().is_none());
    assert!(analyzer.intensity_diff().is_none());
    assert_eq!(analyzer.intensity_var_sum(), 0);
}

#[test]
fn test_is_ir_working_no_baseline() {
    let analyzer = StreamAnalyzer::new(2);
    let result = analyzer.is_ir_working();
    assert!(result.is_err());
}

#[test]
fn test_is_ir_working_no_image() {
    let mut analyzer = StreamAnalyzer::new(2);
    analyzer.feed(&create_image(1, 1, 10)).unwrap();
    analyzer.start_analyzing().unwrap();
    let result = analyzer.is_ir_working();
    assert!(result.is_err());
}

#[test]
fn test_is_ir_working() {
    let mut analyzer = StreamAnalyzer::new(2);

    // 1. Establish a baseline (IR off)
    analyzer.feed(&create_image(1, 1, 10)).unwrap();
    analyzer.feed(&create_image(1, 1, 12)).unwrap();
    analyzer.feed(&create_image(1, 1, 10)).unwrap();
    // diff1 = 30-36 = -6
    // diff2 = 36-30 = 6
    // var = |6 - (-6)| = 12
    assert_eq!(analyzer.intensity_var_sum(), 12);

    assert!(analyzer.is_ir_working().is_err()); // start_analyzing not called yet

    analyzer.start_analyzing().unwrap();
    assert_eq!(analyzer.ref_intensity_var_mean(), Some(8)); // 12 * 2 / 3 = 8
    assert!(analyzer.is_ir_working().is_err()); // feed never called

    // 2. Simulate IR turning on (large intensity change)
    analyzer.feed(&create_image(1, 1, 10)).unwrap();
    analyzer.feed(&create_image(1, 1, 80)).unwrap();
    analyzer.feed(&create_image(1, 1, 10)).unwrap();
    // diff1 = 30-240 = -210
    // diff2 = 240-30 = 210
    // var = |210 - (-210)| = 420
    assert_eq!(analyzer.intensity_var_sum(), 420);

    // The new variation (420) is greater than the reference
    assert!(analyzer.is_ir_working().unwrap());

    // 3. Simulate another "off" period, should not be working
    analyzer.start_analyzing().unwrap();
    analyzer.feed(&create_image(1, 1, 10)).unwrap();
    analyzer.feed(&create_image(1, 1, 11)).unwrap();
    analyzer.feed(&create_image(1, 1, 10)).unwrap();
    // diff1 = 30-33 = -3
    // diff2 = 33-30 = 3
    // var = |3 - (-3)| = 6
    assert_eq!(analyzer.intensity_var_sum(), 6);
    assert!(!analyzer.is_ir_working().unwrap()); // 2 is not > 8
}

#[test]
fn test_analyze_images_flow() {
    let mut analyzer = StreamAnalyzer::new(2);
    let mut waiting = false;
    let images_before_answer = 2;

    // Establish baseline
    let r = analyze_step(&mut analyzer, &mut waiting, Message::IsIrWorking, images_before_answer);
    assert_eq!(r.unwrap(), None);
    let r = analyze_step(
        &mut analyzer,
        &mut waiting,
        Message::Image(create_image(1, 1, 10)),
        images_before_answer,
    );
    assert_eq!(r.unwrap(), None);

    // The second frame completes the round; the first answer is Maybe
    // because no baseline exists yet.
    let r = analyze_step(
        &mut analyzer,
        &mut waiting,
        Message::Image(create_image(1, 1, 12)),
        images_before_answer,
    );
    assert_eq!(r.unwrap(), Some(IsIrWorking::Maybe));
    assert!(!waiting);

    // Frames outside a question are discarded.
    let r = analyze_step(
        &mut analyzer,
        &mut waiting,
        Message::Image(create_image(1, 1, 11)),
        images_before_answer,
    );
    assert_eq!(r.unwrap(), None);

    // Ask again and feed the frames that answer it.
    analyze_step(&mut analyzer, &mut waiting, Message::IsIrWorking, images_before_answer).unwrap();
    let r = analyze_step(
        &mut analyzer,
        &mut waiting,
        Message::Image(create_image(1, 1, 11)),
        images_before_answer,
    );
    assert_eq!(r.unwrap(), None);
    let r = analyze_step(
        &mut analyzer,
        &mut waiting,
        Message::Image(create_image(1, 1, 11)),
        images_before_answer,
    );
    assert!(r.unwrap().is_some());
}

#[test]
fn test_flat_baseline_then_variation_answers_yes() {
    // A flat stream accumulates no variation, so the baseline mean is 0;
    // any later stream with real variation is then reported working.
    let mut analyzer = StreamAnalyzer::new(50);
    analyzer.feed(&create_image(2, 2, 40)).unwrap();
    analyzer.feed(&create_image(2, 2, 40)).unwrap();
    analyzer.feed(&create_image(2, 2, 40)).unwrap();
    assert_eq!(analyzer.intensity_var_sum(), 0);
    analyzer.start_analyzing().unwrap();
    assert_eq!(analyzer.ref_intensity_var_mean(), Some(0));

    analyzer.feed(&create_image(2, 2, 10)).unwrap();
    analyzer.feed(&create_image(2, 2, 90)).unwrap();
    analyzer.feed(&create_image(2, 2, 10)).unwrap();
    assert!(analyzer.is_ir_working().unwrap());
}

#[test]
fn test_image_new_rejects_wrong_pixel_count() {
    assert!(Image::new(2, 2, vec![0; 3]).is_err());
    assert!(Image::new(2, 2, vec![0; 4]).is_ok());
}

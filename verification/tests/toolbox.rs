use dfsdm_viz::toolbox::{Overview, SplMode, Statistics, ToolboxSource};

#[test]
fn toolbox_source_labels() {
    assert_eq!(ToolboxSource::Raw.label(), "Raw");
    assert_eq!(ToolboxSource::Hpf.label(), "HPF");
}

#[test]
fn spl_mode_labels() {
    assert_eq!(SplMode::Acoustic.level_label(), "dBSPL");
    assert_eq!(SplMode::Digital.level_label(), "dBFS");
    assert_eq!(SplMode::Acoustic.level_unit(), "dBSPL");
    assert_eq!(SplMode::Digital.level_unit(), "dBFS");
    assert!(SplMode::Acoustic.is_acoustic());
    assert!(!SplMode::Digital.is_acoustic());
}

#[test]
fn overview_starts_linear() {
    let mut o = Overview::new();
    assert!(!o.log_freq());
    o.set_log_freq(true);
    assert!(o.log_freq());
    let _s = Statistics::new();
}

#[test]
fn view_names() {
    assert_eq!(Overview::new().name(), "PSD (Welch)");
    assert_eq!(Statistics::new().name(), "Statistics");
}

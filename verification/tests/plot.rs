use h7cad::plot::{strs, PlotDialogState, PlotDlgMsg, PlotFlag, OUT_DEFAULT, OUT_PDF, PREF_COUNT};

#[test]
fn defaults_match_the_dialog() {
    let s = PlotDialogState::default();
    assert!(s.printers.is_empty());
    assert_eq!(s.printer, None);
    assert!(!s.to_file);
    assert_eq!(s.paper, "A4");
    assert_eq!(s.orientation, "Landscape");
    assert_eq!(s.rotation, "0°");
    assert_eq!(s.copies, "1");
    assert_eq!(s.area, "Window");
    assert_eq!(s.scale, "Fit");
    assert_eq!(s.quality, "Normal");
    assert_eq!(s.dpi, "300");
    assert_eq!(s.shade, "As displayed");
    assert!(s.center && s.scale_lw && s.lineweights && s.with_styles);
    assert!(!s.mono && !s.transparency && !s.stamp && !s.save_layout);
    assert_eq!(s.style_name, "");
}

#[test]
fn save_writes_one_line_per_preference() {
    let s = PlotDialogState::default();
    let text = s.save();
    assert_eq!(
        text,
        "printer=\nto_file=0\narea=Window\nscale=Fit\ncopies=1\nquality=Normal\ndpi=300\n\
         shade=As displayed\nmono=0\nlineweights=1\nwith_styles=1\ntransparency=0\n\
         paperspace_last=0\nhide_paperspace=0\nstamp=0\nsave_layout=0\nscale_lw=1\n"
    );
    assert_eq!(text.lines().count(), PREF_COUNT);
}

#[test]
fn load_without_a_file_gives_defaults() {
    let s = PlotDialogState::load(None);
    assert_eq!(s.save(), PlotDialogState::default().save());
}

#[test]
fn load_applies_known_keys_in_order() {
    let body = "printer = Office Laser \r\nto_file=1\ncopies=3\nbogus=1\nno equals here\n\
                mono=yes\ndpi=600\ndpi=1200\nscale_lw=0";
    let s = PlotDialogState::load(Some(body));
    assert_eq!(s.printer, Some("Office Laser".to_string()));
    assert!(s.to_file);
    assert_eq!(s.copies, "3");
    assert!(!s.mono);
    assert_eq!(s.dpi, "1200");
    assert!(!s.scale_lw);
    assert_eq!(s.paper, "A4");
}

#[test]
fn blank_printer_means_the_default_printer() {
    let mut s = PlotDialogState::default();
    s.printer = Some("Plotter".to_string());
    let loaded = PlotDialogState::load(Some("printer=   \n"));
    assert_eq!(loaded.printer, None);
    let saved = s.save();
    assert_eq!(PlotDialogState::load(Some(&saved)).printer, Some("Plotter".to_string()));
}

#[test]
fn saved_preferences_load_back() {
    let mut s = PlotDialogState::default();
    s.printer = Some("Big Plotter".to_string());
    s.to_file = true;
    s.area = "Extents".to_string();
    s.scale = "1:50".to_string();
    s.copies = "2".to_string();
    s.quality = "High".to_string();
    s.dpi = "600".to_string();
    s.shade = "Wireframe".to_string();
    s.mono = true;
    s.lineweights = false;
    s.with_styles = false;
    s.transparency = true;
    s.paperspace_last = true;
    s.hide_paperspace = true;
    s.stamp = true;
    s.save_layout = true;
    s.scale_lw = false;
    s.paper = "A1".to_string();
    let back = PlotDialogState::load(Some(&s.save()));
    assert_eq!(back.save(), s.save());
    assert_eq!(back.printer, s.printer);
    assert!(back.stamp && back.mono && !back.scale_lw);
    assert_eq!(back.paper, "A4");
}

#[test]
fn owned_strings() {
    let v = strs(&[OUT_DEFAULT, OUT_PDF]);
    assert_eq!(v, vec!["System default printer".to_string(), "Save to PDF file…".to_string()]);
}

#[test]
fn messages_carry_their_values() {
    let m = PlotDlgMsg::Copies("4".to_string());
    assert!(matches!(m, PlotDlgMsg::Copies(ref c) if c == "4"));
    assert!(matches!(PlotDlgMsg::Flag(PlotFlag::Stamp), PlotDlgMsg::Flag(PlotFlag::Stamp)));
}

#[test]
fn an_empty_printer_name_saves_and_loads_as_the_default_printer() {
    let mut s = PlotDialogState::default();
    s.printer = Some(String::new());
    s.copies = "3".to_string();
    let back = PlotDialogState::load(Some(&s.save()));
    assert_eq!(back.printer, None);
    assert_eq!(back.copies, "3");
}

#[test]
fn printer_list_offers_default_printers_then_pdf() {
    let mut s = PlotDialogState::default();
    s.printers = vec!["P1".to_string(), "P2".to_string()];
    assert_eq!(s.printer_options(), vec![OUT_DEFAULT.to_string(), "P1".to_string(), "P2".to_string(), OUT_PDF.to_string()]);
    s.printers.clear();
    assert_eq!(s.printer_options(), vec![OUT_DEFAULT.to_string(), OUT_PDF.to_string()]);
}

#[test]
fn printer_selection_follows_output_and_printer() {
    let mut s = PlotDialogState::default();
    s.to_file = false;
    s.printer = None;
    assert_eq!(s.printer_selection(), OUT_DEFAULT);
    s.printer = Some("P2".to_string());
    assert_eq!(s.printer_selection(), "P2");
    s.to_file = true;
    assert_eq!(s.printer_selection(), OUT_PDF);
}

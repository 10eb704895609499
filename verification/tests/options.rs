use mdbook_pdf::options::PrintOptions;

#[test]
fn the_defaults_are_those_of_the_browser() {
    let cfg = PrintOptions::default();
    assert_eq!(cfg.trying_times, 1);
    assert_eq!(cfg.timeout, 600);
    assert_eq!(cfg.browser_binary_path, "");
    assert_eq!(cfg.static_site_url, "");
    assert!(!cfg.per_chapter);
    assert!(cfg.omit_chapters.is_empty());
    assert!(cfg.print_chapters.is_empty());
    assert!(!cfg.landscape);
    assert!(!cfg.display_header_footer);
    assert!(!cfg.print_background);
    assert_eq!(cfg.theme, "");
    assert_eq!(cfg.page_ranges, "");
    assert!(!cfg.ignore_invalid_page_ranges);
    assert_eq!(cfg.header_template, "");
    assert_eq!(cfg.footer_template, "");
    assert!(!cfg.prefer_css_page_size);
    assert!(cfg.generate_document_outline);
    assert!(cfg.generate_tagged_pdf);
}

#[test]
fn measures_are_bit_patterns_of_floating_point_numbers() {
    let cfg = PrintOptions::default();
    assert_eq!(f64::from_bits(cfg.scale.bits), 1.0);
    assert_eq!(f64::from_bits(cfg.paper_width.bits), 8.5);
    assert_eq!(f64::from_bits(cfg.paper_height.bits), 11.0);
    assert_eq!(f64::from_bits(cfg.margin_top.bits), 1.0);
    assert_eq!(f64::from_bits(cfg.margin_bottom.bits), 1.0);
    assert_eq!(f64::from_bits(cfg.margin_left.bits), 1.0);
    assert_eq!(f64::from_bits(cfg.margin_right.bits), 1.0);
}

use rustfully_syndicated::csoonline::CSOSource;
use rustfully_syndicated::darkreading::DarkReadingSource;
use rustfully_syndicated::date::MonthStyle;
use rustfully_syndicated::krebs::KrebsSource;

#[test]
fn cso_configuration() {
    let s = CSOSource::default();
    assert_eq!(s.config.url, "https://www.csoonline.com/privacy".to_string());
    assert_eq!(s.config.title_query, "h3".to_string());
    assert_eq!(s.config.link_query, "a".to_string());
    assert_eq!(s.config.month_style, MonthStyle::Abbreviated);
    assert!(!s.config.join_links);
    assert!(!s.config.custom_headers);
}

#[test]
fn darkreading_configuration() {
    let s = DarkReadingSource::default();
    assert_eq!(s.config.url, "https://www.darkreading.com/cyber-risk/data-privacy".to_string());
    assert_eq!(s.config.base_url, s.config.url);
    assert_eq!(s.config.month_style, MonthStyle::Abbreviated);
    assert!(s.config.join_links);
    assert!(s.config.custom_headers);
}

#[test]
fn krebs_configuration() {
    let s = KrebsSource::default();
    assert_eq!(s.config.url, "https://krebsonsecurity.com".to_string());
    assert_eq!(s.config.container_query, "#primary article".to_string());
    assert_eq!(s.config.month_style, MonthStyle::Full);
    assert!(!s.config.join_links);
    assert!(!s.config.custom_headers);
}

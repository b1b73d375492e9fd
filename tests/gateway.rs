use tram_time::{parse_next_departure, GatewayError};

#[test]
fn page_with_minutes() {
    let page = "<div class=\"next\"><span>12<abbr title=\"minutes\">min</abbr></span></div>";
    assert_eq!(parse_next_departure(page), Ok(Some(12)));
}

#[test]
fn page_with_single_digit() {
    let page = "<li>Prochain passage : 7<abbr title=\"minutes\">min</abbr></li>";
    assert_eq!(parse_next_departure(page), Ok(Some(7)));
}

#[test]
fn only_first_mark_counts() {
    let page = "a 3<abbr title=\"minutes\">min</abbr> puis 9<abbr title=\"minutes\">min</abbr>";
    assert_eq!(parse_next_departure(page), Ok(Some(3)));
}

#[test]
fn page_without_departure() {
    let page = "<p>Pas de prochain passage dans les prochaines heures</p>";
    assert_eq!(parse_next_departure(page), Ok(None));
}

#[test]
fn notice_wins_over_minutes() {
    let page = "Pas de prochain 4<abbr title=\"minutes\">";
    assert_eq!(parse_next_departure(page), Ok(None));
}

#[test]
fn page_without_mark_is_unavailable() {
    assert_eq!(parse_next_departure("<html>maintenance</html>"), Err(GatewayError::Unavailable));
    assert_eq!(parse_next_departure(""), Err(GatewayError::Unavailable));
}

#[test]
fn mark_without_digits_is_unavailable() {
    assert_eq!(parse_next_departure("<abbr title=\"minutes\">"), Err(GatewayError::Unavailable));
    assert_eq!(parse_next_departure("5 <abbr title=\"minutes\">"), Err(GatewayError::Unavailable));
}

#[test]
fn huge_number_is_unavailable() {
    let page = "99999999999999999999999<abbr title=\"minutes\">";
    assert_eq!(parse_next_departure(page), Err(GatewayError::Unavailable));
}

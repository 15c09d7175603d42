use freetalk::category_form::check_category_form;

#[test]
fn a_good_form_is_trimmed() {
    assert_eq!(
        check_category_form("  News ", "  ", " 📰 "),
        Ok(("News".to_string(), None, Some("📰".to_string())))
    );
    assert_eq!(
        check_category_form("News", " About news ", ""),
        Ok(("News".to_string(), Some("About news".to_string()), None))
    );
}

#[test]
fn the_name_must_be_given_and_fit() {
    assert_eq!(check_category_form("   ", "", ""), Err("Category name cannot be empty".to_string()));
    let long = "x".repeat(51);
    assert_eq!(
        check_category_form(&long, "", ""),
        Err("Category name must be 50 characters or less".to_string())
    );
    let fits = "x".repeat(50);
    assert!(check_category_form(&fits, "", "").is_ok());
    // 26 two-byte characters take 52 bytes.
    let wide = "é".repeat(26);
    assert!(check_category_form(&wide, "", "").is_err());
}

#[test]
fn the_icon_must_be_one_character() {
    assert_eq!(
        check_category_form("News", "", "ab"),
        Err("Icon must be exactly 1 character (emoji), got 2 characters".to_string())
    );
}

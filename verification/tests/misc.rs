use kreta_core::absence_best_guess::{absence_guess, Absence};
use kreta_core::excuse::ExcuseType;
use kreta_core::html_stats::hash_to_color;
use kreta_core::login::{ConnectTokenBody, Credentials, LoginBody};
use kreta_core::options::{escape_desc_text, Options};

#[test]
fn absence_guess_mappings() {
    assert!(matches!(absence_guess("Jelenlet"), Absence::Present));
    // "Na": not yet recorded, the lesson has not happened.
    assert!(matches!(absence_guess("Na"), Absence::Present));
    assert!(matches!(absence_guess("Keses"), Absence::Late));
    assert!(matches!(absence_guess("Hianyzas"), Absence::Absent));
    assert!(matches!(absence_guess("anything else"), Absence::Absent));
}

#[test]
fn colors_are_stable_per_category() {
    let a = hash_to_color(&ExcuseType::Unexcused);
    let b = hash_to_color(&ExcuseType::Unexcused);
    assert_eq!(a, b);
    let c = hash_to_color(&ExcuseType::Excused("orvosi".to_string()));
    let d = hash_to_color(&ExcuseType::Excused("orvosi".to_string()));
    assert_eq!(c, d);
    // The tag byte separates the fixed categories from each other.
    assert_ne!(
        hash_to_color(&ExcuseType::Unexcused),
        hash_to_color(&ExcuseType::ToBeExcused)
    );
}

#[test]
fn escape_desc_text_escapes_reserved_characters() {
    assert_eq!(escape_desc_text("a,b;c\\d\ne"), "a\\,b\\;c\\\\d\\ne");
    assert_eq!(escape_desc_text(""), "");
    assert_eq!(escape_desc_text("plain"), "plain");
}

#[test]
fn credentials_round_trip() {
    let c = Credentials::new(
        "inst".to_string(),
        "user".to_string(),
        "secret".to_string(),
    );
    assert_eq!(c.inst_id(), "inst");
    assert_eq!(c.username(), "user");
    assert_eq!(c.passwd(), "secret");
}

#[test]
fn login_body_fills_constants() {
    let c = Credentials::new("inst".to_string(), "user".to_string(), "pw".to_string());
    let body = LoginBody::new(
        "/ret".to_string(),
        "tok".to_string(),
        &c,
        "client".to_string(),
        false,
    );
    assert_eq!(body.return_url, "/ret");
    assert_eq!(body.request_verification_token, "tok");
    assert_eq!(body.username, "user");
    assert_eq!(body.passwd, "pw");
    assert_eq!(body.inst_code, "inst");
    assert_eq!(body.client_id, "client");
    assert_eq!(body.login_type, "InstituteLogin");
    assert_eq!(body.is_temporary_login, "False");

    let temporary = LoginBody::new_explicit(
        "/ret".to_string(),
        "tok".to_string(),
        "u".to_string(),
        "p".to_string(),
        "i".to_string(),
        "client".to_string(),
        true,
    );
    assert_eq!(temporary.is_temporary_login, "True");
}

#[test]
fn connect_token_body_keeps_fields() {
    let body = ConnectTokenBody::new_explicit(
        "code".to_string(),
        "authorization_code".to_string(),
        "https://example.invalid/redirect".to_string(),
        "verifier".to_string(),
        "client".to_string(),
    );
    assert_eq!(body.code, "code");
    assert_eq!(body.grant_type, "authorization_code");
    assert_eq!(body.redirect_uri, "https://example.invalid/redirect");
    assert_eq!(body.code_verifier, "verifier");
    assert_eq!(body.client_id, "client");
}

#[test]
fn options_defaults() {
    let o = Options::default();
    assert!(o.lowercase_subject_names);
    assert!(o.lesson_topic_in_name);
    assert!(o.teacher_name_in_location);
    assert!(!o.pretty_print_as_desc);
    assert_eq!(o.substitution_prefix, "\u{1f504}");
    assert_eq!(o.cancelled_lesson_preifx, "\u{274c}");
    assert_eq!(o.announced_exam_prefix, "\u{1f4dd}");
    assert_eq!(o.homework_given_prefix, "\u{1f3e0}");
    assert_eq!(o.absence_prefix, "\u{1f6ab}");
    assert_eq!(o.student_late_prefix, "\u{23f0}");
}

use std::rc::Rc;

use mail_core::components::utils::item::{InnerAsciiItem, InnerUtf8Item, Input};
use mail_core::data::input;
use mail_core::data::simple_item::SimpleItem;

#[test]
fn item_input_eq() {
    let a = Input::Owned("same".into());
    let b = Input::Shared(Rc::new(String::from("same")));
    assert_eq!(a, b);
}

#[test]
fn item_input_neq() {
    let a = Input::Owned("not same".into());
    let b = Input::Shared(Rc::new(String::from("not at all same")));
    assert_ne!(a, b);
}

#[test]
fn inner_ascii_item_eq() {
    let a = InnerAsciiItem::new("same").unwrap();
    let b = InnerAsciiItem::Shared(Rc::new(String::from("same")));
    assert_eq!(a, b);
}

#[test]
fn inner_ascii_item_neq() {
    let a = InnerAsciiItem::new("same").unwrap();
    let b = InnerAsciiItem::Shared(Rc::new(String::from("not same")));
    assert_ne!(a, b);
}

#[test]
fn inner_utf8_item_eq() {
    let a = InnerUtf8Item::Owned(String::from("same"));
    let b = InnerUtf8Item::Shared(Rc::new(String::from("same")));
    assert_eq!(a, b);
}

#[test]
fn inner_utf8_item_neq() {
    let a = InnerUtf8Item::Owned(String::from("same"));
    let b = InnerUtf8Item::Shared(Rc::new(String::from("not same")));
    assert_ne!(a, b);
}

#[test]
fn inner_ascii_item_rejects_non_ascii() {
    assert!(InnerAsciiItem::new("nöt").is_none());
}

#[test]
fn input_conversions() {
    let shared = Input::from_str("abc").into_shared();
    assert!(matches!(shared, Input::Shared(_)));
    assert_eq!(shared.as_str(), "abc");
    assert_eq!(shared.clone().into_simple_item(), SimpleItem::Ascii("abc".to_string()));
    assert_eq!(
        Input::from_str("äbc").into_simple_item(),
        SimpleItem::Utf8("äbc".to_string())
    );
    assert_eq!(shared.clone().into_ascii_item().unwrap().as_str(), "abc");
    assert_eq!(Input::from_str("äbc").into_ascii_item(), Err("äbc".to_string()));
    assert!(matches!(shared.into_utf8_item(), InnerUtf8Item::Shared(_)));
    let owned: Input = String::from("x").into();
    assert_eq!(owned, Input::Owned("x".to_string()));
}

#[test]
fn input_input_eq() {
    let a = input::Input(InnerUtf8Item::Owned("same".into()));
    let b = input::Input(InnerUtf8Item::Shared(Rc::new(String::from("same"))));
    assert_eq!(a, b);
}

#[test]
fn input_input_neq() {
    let a = input::Input(InnerUtf8Item::Owned("not same".into()));
    let b = input::Input(InnerUtf8Item::Shared(Rc::new(String::from("not at all same"))));
    assert_ne!(a, b);
}

#[test]
fn data_input_conversions() {
    let i = input::Input::from_str("abc").into_shared();
    assert!(matches!(i.0, InnerUtf8Item::Shared(_)));
    assert_eq!(i.clone().into_ascii_item().unwrap().as_str(), "abc");
    assert_eq!(i.clone().into_ascii_item_unchecked().as_str(), "abc");
    let u = input::Input::from_str("ü");
    assert_eq!(u.clone().into_ascii_item(), Err(u.clone()));
    assert_eq!(u.into_utf8_item().as_str(), "ü");
}

#[test]
fn simple_item_from_inputs() {
    let a = SimpleItem::from_input(input::Input::from_str("abc"));
    assert!(a.is_ascii());
    assert_eq!("abc", a.as_str());

    let u = SimpleItem::from_input(input::Input::from_str("äbc"));
    assert!(!u.is_ascii());
    assert_eq!("äbc", u.as_str());

    let v = SimpleItem::from_utf8_input(input::Input::from_str("abc"));
    assert!(!v.is_ascii());
    assert_eq!("abc", v.into_string());
}

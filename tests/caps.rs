use irc::Capability;
use irc::Capability::{AccountNotify, AwayNotify, ExtendedJoin, MultiPrefix};

#[test]
fn to_str() {
    assert_eq!(MultiPrefix.as_ref(), "multi-prefix");
    assert_eq!(AccountNotify.as_ref(), "account-notify");
    assert_eq!(AwayNotify.as_ref(), "away-notify");
    assert_eq!(ExtendedJoin.as_ref(), "extended-join");
}

#[test]
fn wire_strings_are_distinct() {
    let all: Vec<Capability> = vec![MultiPrefix, AccountNotify, AwayNotify, ExtendedJoin];
    for (i, a) in all.iter().enumerate() {
        for (j, b) in all.iter().enumerate() {
            assert_eq!(i == j, a.wire_string() == b.wire_string());
        }
    }
    assert_eq!(AccountNotify.wire_string(), "account-notify");
}

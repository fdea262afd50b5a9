use wry_cmd::{join_address, normalize, resolve, strip_leading_slash, trim_slashes};

#[test]
fn authority_alone_is_the_command() {
    assert_eq!(resolve(Some("greet"), ""), "greet");
}

#[test]
fn authority_and_path_are_joined_and_trimmed() {
    assert_eq!(resolve(Some("mycommands"), "/greet/"), "mycommands/greet");
}

#[test]
fn encoded_slash_is_decoded_after_trimming() {
    let name = resolve(Some("%2Fgreet"), "");
    assert_eq!(name, "/greet");
    assert_eq!(trim_slashes(&name), "greet");
}

#[test]
fn path_alone_is_the_command() {
    assert_eq!(resolve(None, "/greet"), "greet");
    assert_eq!(resolve(Some(""), "/greet"), "greet");
    assert_eq!(resolve(None, "greet"), "greet");
}

#[test]
fn empty_address_resolves_to_the_empty_name() {
    assert_eq!(resolve(None, ""), "");
    assert_eq!(resolve(None, "/"), "");
    assert_eq!(resolve(Some(""), "///"), "");
}

#[test]
fn only_one_leading_slash_of_the_path_is_stripped() {
    assert_eq!(strip_leading_slash("//greet"), "/greet");
    assert_eq!(strip_leading_slash("/greet"), "greet");
    assert_eq!(strip_leading_slash("greet"), "greet");
    assert_eq!(strip_leading_slash("/"), "");
    assert_eq!(strip_leading_slash(""), "");
}

#[test]
fn join_keeps_further_slashes_of_the_path() {
    assert_eq!(join_address(Some("svc"), "//greet"), "svc//greet");
    assert_eq!(join_address(Some("svc"), "/greet"), "svc/greet");
    assert_eq!(join_address(Some("svc"), "greet"), "svc/greet");
    assert_eq!(join_address(None, "//greet"), "/greet");
}

#[test]
fn join_takes_the_side_that_is_not_empty() {
    assert_eq!(join_address(Some("svc"), ""), "svc");
    assert_eq!(join_address(Some("svc"), "/"), "svc");
    assert_eq!(join_address(Some(""), "/greet"), "greet");
    assert_eq!(join_address(None, "/greet"), "greet");
    assert_eq!(join_address(None, ""), "");
    assert_eq!(join_address(Some("svc"), "//"), "svc//");
}

#[test]
fn trimming_takes_every_slash_at_both_ends_and_none_inside() {
    assert_eq!(trim_slashes("///a//b///"), "a//b");
    assert_eq!(trim_slashes("a"), "a");
    assert_eq!(trim_slashes("/"), "");
    assert_eq!(trim_slashes("////"), "");
    assert_eq!(trim_slashes(""), "");
    assert_eq!(trim_slashes("/a"), "a");
    assert_eq!(trim_slashes("a/"), "a");
    assert_eq!(trim_slashes("/h\u{e9}llo/\u{4f60}/"), "h\u{e9}llo/\u{4f60}");
}

#[test]
fn escapes_are_decoded() {
    assert_eq!(normalize("%67reet"), "greet");
    assert_eq!(normalize("my%20command"), "my command");
    assert_eq!(normalize("%2fmycommands%2Fgreet"), "/mycommands/greet");
    assert_eq!(normalize("%E4%BD%A0"), "\u{4f60}");
    assert_eq!(normalize("%e4%bd%a0"), "\u{4f60}");
    assert_eq!(normalize("h%C3%A9llo"), "h\u{e9}llo");
}

#[test]
fn what_is_no_escape_stands_for_itself() {
    assert_eq!(normalize("100%"), "100%");
    assert_eq!(normalize("%2"), "%2");
    assert_eq!(normalize("%zz"), "%zz");
    assert_eq!(normalize("%%41"), "%A");
    assert_eq!(normalize("%4g%41"), "%4gA");
    assert_eq!(normalize("h\u{e9}llo"), "h\u{e9}llo");
}

#[test]
fn name_that_does_not_decode_to_utf8_is_kept_as_trimmed() {
    assert_eq!(normalize("/%FF/"), "%FF");
    assert_eq!(normalize("a%C3"), "a%C3");
    assert_eq!(normalize("/%41%80/"), "%41%80");
    assert_eq!(normalize("%ED%A0%80"), "%ED%A0%80");
    assert_eq!(normalize("%C0%AF"), "%C0%AF");
}

#[test]
fn trimming_comes_before_decoding() {
    assert_eq!(normalize("/%2F/"), "/");
    assert_eq!(normalize("%2Fa%2F"), "/a/");
    assert_eq!(resolve(Some("svc"), "/%2Fgreet"), "svc//greet");
}

#[test]
fn resolving_is_idempotent_on_canonical_names() {
    let addresses = [
        (Some("greet"), ""),
        (Some("mycommands"), "/greet/"),
        (None, "/a/b/c"),
        (Some("svc"), "//x"),
        (Some("h\u{e9}llo"), "/w\u{f6}rld"),
        (Some("my%20command"), ""),
        (Some("%FF"), "/x"),
        (None, ""),
    ];
    for (authority, path) in addresses {
        let once = resolve(authority, path);
        assert_eq!(resolve(Some(&once), ""), once);
        assert_eq!(resolve(None, &once), once);
    }
}

#[test]
fn resolving_again_changes_a_name_that_is_not_canonical() {
    let once = resolve(Some("%2Fgreet"), "");
    assert_eq!(once, "/greet");
    assert_eq!(resolve(Some(&once), ""), "greet");
    let twice_encoded = resolve(Some("%2541"), "");
    assert_eq!(twice_encoded, "%41");
    assert_eq!(resolve(Some(&twice_encoded), ""), "A");
}

//! What holds of storage, whatever the path and the configuration.

use vstd::prelude::*;

use crate::storage::{OpendalStorageView, S3StorageConfigView, StorageOutcome};

verus! {

/// Storage behind an `s3://` path has keys exactly where the configuration gives
/// both, and then all that it gives, with a session token or without one.
pub proof fn law_keys_are_those_of_the_configuration(
    outcome: StorageOutcome,
    path: Seq<char>,
    absolute: Seq<char>,
    config: S3StorageConfigView,
    storage: OpendalStorageView,
)
    requires
        crate::storage::is_path_outcome(outcome, path, absolute, Some(config)),
        outcome == StorageOutcome::Ok(storage),
    ensures
        storage.s3 matches Some(settings) && {
            &&& settings.credentials is Some <==> config.key_id is Some && config.secret is Some
            &&& settings.credentials matches Some(keys) ==> Some(keys.key_id) == config.key_id
                && Some(keys.secret) == config.secret && keys.session_token
                == config.session_token
            &&& settings.credentials is None ==> config.key_id is None && config.secret is None
                && config.session_token is None
        },
{
}

/// Storage behind an `s3://` path is in the bucket that the URI names, in the
/// region, at the endpoint and with the style of the configuration.
pub proof fn law_bucket_is_that_of_the_uri(
    outcome: StorageOutcome,
    path: Seq<char>,
    absolute: Seq<char>,
    config: S3StorageConfigView,
    storage: OpendalStorageView,
)
    requires
        crate::storage::is_path_outcome(outcome, path, absolute, Some(config)),
        outcome == StorageOutcome::Ok(storage),
    ensures
        crate::storage::parsed_url(path) matches Ok(parts) && storage.s3 matches Some(settings)
            && {
            &&& parts.scheme == "s3"@
            &&& parts.host == Some(settings.bucket)
            &&& settings.bucket.len() > 0
            &&& config.region matches Some(region) ==> settings.region == region
            &&& config.region is None ==> settings.region == "us-east-1"@
            &&& settings.virtual_host_style == config.virtual_host_style
            &&& settings.endpoint is Some <==> config.endpoint is Some
            &&& config.endpoint matches Some(endpoint) ==> endpoint.is_suffix_of(
                settings.endpoint->0,
            )
            &&& storage.location == parts.text
        },
{
    if let Some(endpoint) = config.endpoint {
        law_endpoint_has_a_scheme(endpoint, config.use_ssl);
    }
}

/// An endpoint keeps its own scheme. Else it gets that of secure connections or
/// of plain ones, as it is asked for.
pub proof fn law_endpoint_has_a_scheme(endpoint: Seq<char>, use_ssl: bool)
    ensures
        endpoint.is_suffix_of(crate::storage::endpoint_url(endpoint, use_ssl)),
        crate::text::has_scheme_separator(crate::storage::endpoint_url(endpoint, use_ssl)),
        crate::text::has_scheme_separator(endpoint) ==> crate::storage::endpoint_url(
            endpoint,
            use_ssl,
        ) == endpoint,
        !crate::text::has_scheme_separator(endpoint) ==> crate::storage::endpoint_url(
            endpoint,
            use_ssl,
        ).len() == endpoint.len() + if use_ssl {
            8int
        } else {
            7
        },
        !crate::text::has_scheme_separator(endpoint) && use_ssl ==> crate::storage::endpoint_url(
            endpoint,
            use_ssl,
        ).take(5) == seq!['h', 't', 't', 'p', 's'],
        !crate::text::has_scheme_separator(endpoint) && !use_ssl ==> crate::storage::endpoint_url(
            endpoint,
            use_ssl,
        ).take(5) == seq!['h', 't', 't', 'p', ':'],
{
    reveal_strlit("https://");
    reveal_strlit("http://");
    let url = crate::storage::endpoint_url(endpoint, use_ssl);
    assert(url.skip(url.len() - endpoint.len()) =~= endpoint);
    assert(url.subrange(url.len() - endpoint.len(), url.len() as int) =~= endpoint);
    if !crate::text::has_scheme_separator(endpoint) {
        if use_ssl {
            assert(url[5] == ':' && url[6] == '/' && url[7] == '/');
            assert(url.take(5) =~= seq!['h', 't', 't', 'p', 's']);
        } else {
            assert(url[4] == ':' && url[5] == '/' && url[6] == '/');
            assert(url.take(5) =~= seq!['h', 't', 't', 'p', ':']);
        }
    }
}

/// A URI can be reached exactly where it is an `s3` one with a bucket, the key
/// and the secret are given together or not at all, and a session token comes
/// with them.
pub proof fn law_keys_come_together(
    outcome: StorageOutcome,
    path: Seq<char>,
    absolute: Seq<char>,
    config: S3StorageConfigView,
)
    requires
        crate::text::has_prefix_ignoring_case(path, "s3://"@),
        crate::storage::is_path_outcome(outcome, path, absolute, Some(config)),
    ensures
        outcome is Ok <==> (crate::storage::parsed_url(path) matches Ok(parts) && parts.scheme
            == "s3"@ && (parts.host matches Some(host) && host.len() > 0)) && (
        config.key_id is Some <==> config.secret is Some) && (config.session_token is Some
            ==> config.key_id is Some),
{
}

/// An `s3://` path, in either case, needs a configuration, and no other path
/// takes one.
pub proof fn law_configurations_are_for_s3(
    outcome: StorageOutcome,
    path: Seq<char>,
    absolute: Seq<char>,
    config: S3StorageConfigView,
)
    ensures
        path.len() >= 5 && (path[0] == 's' || path[0] == 'S') && path.subrange(1, 5) == seq![
            '3',
            ':',
            '/',
            '/',
        ] ==> (crate::storage::is_path_outcome(outcome, path, absolute, None) ==> outcome is Err),
        path.len() < 5 || path[0] != 's' && path[0] != 'S' || path.subrange(1, 5) != seq![
            '3',
            ':',
            '/',
            '/',
        ] ==> (crate::storage::is_path_outcome(outcome, path, absolute, Some(config))
            ==> outcome is Err) && (crate::storage::is_path_outcome(outcome, path, absolute, None)
            ==> (outcome matches Ok(storage) ==> storage.s3 is None)),
{
    reveal_strlit("s3://");
    let wanted = "s3://"@;
    let rest = seq!['3', ':', '/', '/'];
    if path.len() >= 5 {
        let front = path.take(5);
        crate::text_laws::law_case_is_that_of_letters(front, wanted);
        if (path[0] == 's' || path[0] == 'S') && path.subrange(1, 5) == rest {
            assert forall|i: int| 0 <= i < 5 implies crate::text_laws::same_letter(
                #[trigger] front[i],
                wanted[i],
            ) by {
                if i > 0 {
                    assert(path.subrange(1, 5)[i - 1] == rest[i - 1]);
                }
            }
            assert(crate::text::has_prefix_ignoring_case(path, wanted));
        }
        if crate::text::has_prefix_ignoring_case(path, wanted) {
            assert(crate::text_laws::same_letter(front[0], wanted[0]));
            assert(crate::text_laws::same_letter(front[1], wanted[1]));
            assert(crate::text_laws::same_letter(front[2], wanted[2]));
            assert(crate::text_laws::same_letter(front[3], wanted[3]));
            assert(crate::text_laws::same_letter(front[4], wanted[4]));
            assert(path.subrange(1, 5) =~= rest);
        }
    }
}

/// A local path is an object below the root, without its leading slashes.
pub proof fn law_local_objects_are_below_the_root(
    outcome: StorageOutcome,
    slashes: Seq<char>,
    rest: Seq<char>,
    storage: OpendalStorageView,
)
    requires
        crate::text_laws::made_of(slashes, '/'),
        rest.len() > 0 ==> rest[0] != '/',
        crate::storage::is_local_outcome(outcome, slashes + rest),
        outcome == StorageOutcome::Ok(storage),
    ensures
        storage.s3 is None,
        storage.object_path == crate::storage::object_path_text(rest),
{
    crate::text_laws::law_leading_slashes_are_dropped(slashes, rest);
}

/// Whether a byte is an ASCII letter or digit, or one of the marks that stand for
/// themselves in a path.
pub open spec fn is_plain(byte: u8) -> bool {
    ||| 48 <= byte <= 57
    ||| 65 <= byte <= 90
    ||| 97 <= byte <= 122
    ||| seq![
        33u8, 36, 38, 39, 40, 41, 42, 43, 44, 45, 46, 58, 59, 61, 64, 91, 93, 94, 95, 124, 126,
    ].contains(byte)
}

/// What stands for itself in a URL are letters, digits and some marks. Everything
/// else is written as three characters.
pub proof fn law_plain_bytes_stand_for_themselves(bytes: Seq<u8>, byte: u8)
    ensures
        crate::storage::kept_in_url(byte) <==> is_plain(byte),
        crate::storage::url_segment(bytes.push(byte)).len() == crate::storage::url_segment(
            bytes,
        ).len() + if is_plain(byte) {
            1int
        } else {
            3
        },
{
    let marks = seq![
        33u8, 36, 38, 39, 40, 41, 42, 43, 44, 45, 46, 58, 59, 61, 64, 91, 93, 94, 95, 124, 126,
    ];
    assert(marks[0] == 33 && marks[1] == 36 && marks[2] == 38 && marks[3] == 39 && marks[4] == 40);
    assert(marks[5] == 41 && marks[6] == 42 && marks[7] == 43 && marks[8] == 44 && marks[9] == 45);
    assert(marks[10] == 46 && marks[11] == 58 && marks[12] == 59 && marks[13] == 61);
    assert(marks[14] == 64 && marks[15] == 91 && marks[16] == 93 && marks[17] == 94);
    assert(marks[18] == 95 && marks[19] == 124 && marks[20] == 126);
    assert(bytes.push(byte).drop_last() =~= bytes);
}

proof fn lemma_plain_segment(bytes: Seq<u8>)
    requires
        forall|i: int| 0 <= i < bytes.len() ==> is_plain(#[trigger] bytes[i]),
    ensures
        crate::storage::url_segment(bytes) == Seq::new(bytes.len(), |i: int| bytes[i] as char),
    decreases bytes.len(),
{
    if bytes.len() > 0 {
        let shorter = bytes.drop_last();
        assert forall|i: int| 0 <= i < shorter.len() implies is_plain(#[trigger] shorter[i]) by {
            assert(shorter[i] == bytes[i]);
        }
        lemma_plain_segment(shorter);
        assert(is_plain(bytes[bytes.len() - 1]));
        law_plain_bytes_stand_for_themselves(shorter, bytes.last());
        assert(crate::storage::url_segment(bytes) =~= Seq::new(
            bytes.len(),
            |i: int| bytes[i] as char,
        ));
    } else {
        assert(crate::storage::url_segment(bytes) =~= Seq::new(
            bytes.len(),
            |i: int| bytes[i] as char,
        ));
    }
}

/// The URL of a file is that of its directory, a slash, and its name, where the
/// name is plain.
pub proof fn law_url_follows_the_path(directory: Seq<char>, name: Seq<char>)
    requires
        crate::text_laws::is_file_name(name),
        vstd::utf8::is_ascii_chars(name),
        forall|i: int| 0 <= i < name.len() ==> is_plain(#[trigger] name[i] as u8),
    ensures
        crate::storage::url_segments(directory.push('/') + name)
            == crate::storage::url_segments(directory).push('/') + name,
        crate::storage::url_segments(directory.push('/')) == crate::storage::url_segments(
            directory,
        ),
{
    let path = directory.push('/') + name;
    crate::text_laws::lemma_last_position_behind(directory, '/', name);
    assert(path.skip(directory.len() as int + 1) =~= name);
    assert(path.take(directory.len() as int) =~= directory);
    vstd::utf8::is_ascii_chars_encode_utf8(name);
    let bytes = vstd::utf8::encode_utf8(name);
    assert forall|i: int| 0 <= i < bytes.len() implies is_plain(#[trigger] bytes[i]) by {
        assert(bytes[i] == name[i] as u8);
    }
    lemma_plain_segment(bytes);
    assert(crate::storage::url_segment(bytes) =~= name);
    reveal_strlit("/");
    assert("/"@ =~= seq!['/']);
    assert(crate::storage::url_segments(directory) + "/"@ + name
        =~= crate::storage::url_segments(directory).push('/') + name);
    let none = Seq::<char>::empty();
    crate::text_laws::lemma_last_position_behind(directory, '/', none);
    assert(directory.push('/') + none =~= directory.push('/'));
    assert(directory.push('/').skip(directory.len() as int + 1) =~= none);
    assert(directory.push('/').take(directory.len() as int) =~= directory);
}

/// The value of a hexadecimal digit.
pub open spec fn digit_value(digit: char) -> int {
    if '0' <= digit <= '9' {
        digit as int - '0' as int
    } else if 'A' <= digit <= 'F' {
        digit as int - 'A' as int + 10
    } else {
        -1
    }
}

/// A byte that does not stand for itself in a URL is written as `%` and the two
/// digits of its number.
pub proof fn law_other_bytes_are_written_in_digits(bytes: Seq<u8>, byte: u8)
    ensures
        ({
            let before = crate::storage::url_segment(bytes);
            let behind = crate::storage::url_segment(bytes.push(byte));
            &&& before.is_prefix_of(behind)
            &&& is_plain(byte) ==> behind == before.push(byte as char)
            &&& !is_plain(byte) ==> {
                &&& behind[before.len() as int] == '%'
                &&& 0 <= digit_value(behind[before.len() as int + 1]) < 16
                &&& 0 <= digit_value(behind[before.len() as int + 2]) < 16
                &&& digit_value(behind[before.len() as int + 1]) * 16 + digit_value(
                    behind[before.len() as int + 2],
                ) == byte
            }
        }),
        crate::storage::url_segment(Seq::empty()) == Seq::<char>::empty(),
{
    law_plain_bytes_stand_for_themselves(bytes, byte);
    reveal_strlit("0123456789ABCDEF");
    assert(bytes.push(byte).drop_last() =~= bytes);
    let before = crate::storage::url_segment(bytes);
    let behind = crate::storage::url_segment(bytes.push(byte));
    assert(behind.subrange(0, before.len() as int) =~= before);
    let high = byte as int / 16;
    let low = byte as int % 16;
    assert(digit_value(crate::storage::hex_digit(high)) == high) by {
        lemma_digit(high);
    }
    assert(digit_value(crate::storage::hex_digit(low)) == low) by {
        lemma_digit(low);
    }
}

proof fn lemma_digit(value: int)
    requires
        0 <= value < 16,
    ensures
        digit_value(crate::storage::hex_digit(value)) == value,
{
    reveal_strlit("0123456789ABCDEF");
}

/// The URL of a path is made of its parts, each behind a slash, whatever they
/// hold. Parts that are empty or a dot are left out.
pub proof fn law_parts_make_the_url(directory: Seq<char>, name: Seq<char>)
    requires
        crate::text_laws::lacks(name, '/'),
    ensures
        crate::storage::url_segments(directory.push('/') + name)
            == crate::storage::url_segments(directory) + if name.len() == 0 || name == seq!['.'] {
            Seq::empty()
        } else {
            seq!['/'] + crate::storage::url_segment(vstd::utf8::encode_utf8(name))
        },
{
    let path = directory.push('/') + name;
    crate::text_laws::lemma_last_position_behind(directory, '/', name);
    assert(path.skip(directory.len() as int + 1) =~= name);
    assert(path.take(directory.len() as int) =~= directory);
    reveal_strlit("/");
    assert("/"@ =~= seq!['/']);
    let segment = crate::storage::url_segment(vstd::utf8::encode_utf8(name));
    assert(crate::storage::url_segments(directory) + "/"@ + segment
        =~= crate::storage::url_segments(directory) + (seq!['/'] + segment));
    assert(crate::storage::url_segments(directory) + Seq::<char>::empty()
        =~= crate::storage::url_segments(directory));
}

/// A file below the root is at the URL of its path, and its location says so.
pub proof fn law_files_are_at_their_urls(
    outcome: StorageOutcome,
    rest: Seq<char>,
    storage: OpendalStorageView,
)
    requires
        rest.len() > 0,
        rest[0] != '/',
        rest[0] != '\\',
        crate::storage::is_local_outcome(outcome, seq!['/'] + rest),
        outcome == StorageOutcome::Ok(storage),
    ensures
        storage.location.take(7) == seq!['f', 'i', 'l', 'e', ':', '/', '/'],
        crate::storage::url_segments(seq!['/'] + rest).len() > 0 ==> storage.location.skip(7)
            == crate::storage::url_segments(seq!['/'] + rest),
        crate::storage::url_segments(seq!['/'] + rest).len() == 0 ==> storage.location.skip(7)
            == seq!['/'],
{
    reveal_strlit("file://");
    reveal_strlit("file:///");
    let path = seq!['/'] + rest;
    assert(path[1] == rest[0]);
    let segments = crate::storage::url_segments(path);
    assert(storage.location.take(7) =~= seq!['f', 'i', 'l', 'e', ':', '/', '/']);
    if segments.len() > 0 {
        assert(storage.location.skip(7) =~= segments);
    } else {
        assert(storage.location.skip(7) =~= seq!['/']);
    }
}

/// An object behind an `s3://` path is what the URI says behind the bucket,
/// without leading slashes.
pub proof fn law_objects_are_those_of_the_uri(
    outcome: StorageOutcome,
    path: Seq<char>,
    absolute: Seq<char>,
    config: S3StorageConfigView,
    storage: OpendalStorageView,
    slashes: Seq<char>,
    rest: Seq<char>,
)
    requires
        crate::storage::is_path_outcome(outcome, path, absolute, Some(config)),
        outcome == StorageOutcome::Ok(storage),
        crate::text_laws::made_of(slashes, '/'),
        rest.len() > 0 ==> rest[0] != '/',
        crate::storage::parsed_url(path) matches Ok(parts) && parts.path == slashes + rest,
    ensures
        storage.object_path == crate::storage::object_path_text(rest),
{
    crate::text_laws::law_leading_slashes_are_dropped(slashes, rest);
}

}

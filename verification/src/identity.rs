//! Where the state of a mount is kept: a directory of its own for each mount.

use vstd::prelude::*;
use vstd::utf8::encode_utf8;

use crate::chars::{ascii_alphanumeric, is_ascii_alphanumeric};
use crate::cli::Cli;
use crate::jsonl::{append_bytes, copy_bytes};
use crate::numbers::{hex16_text, hex_digits};
use crate::text::{
    chars_of, concat2, concat3, lemma_split_around, lemma_split_without, split, Text,
};

verus! {

/// The slash between the parts of a path.
pub const SLASH: u8 = 47;

/// What the hash of a text begins with.
pub const FNV_OFFSET: u64 = 0xcbf29ce484222325;

/// What the hash of a text is multiplied by for each byte.
pub const FNV_PRIME: u64 = 0x00000100000001b3;

/// A path with one more part.
pub open spec fn joined(base: Seq<u8>, part: Seq<u8>) -> Seq<u8> {
    if base.len() == 0 {
        part
    } else if base.last() == SLASH {
        base + part
    } else {
        base.push(SLASH) + part
    }
}

/// The directory below which the state of all mounts is kept: in the state directory,
/// else in the home directory, else in the current directory.
pub open spec fn cache_root(
    state_home: Option<Seq<u8>>,
    home: Option<Seq<u8>>,
    current_dir: Seq<u8>,
) -> Seq<u8> {
    match (state_home, home) {
        (Some(state_home), _) => joined(state_home, encode_utf8("eventfs"@)),
        (None, Some(home)) => joined(
            joined(joined(home, encode_utf8(".local"@)), encode_utf8("state"@)),
            encode_utf8("eventfs"@),
        ),
        (None, None) => joined(current_dir, encode_utf8(".eventfs-state"@)),
    }
}

/// A character as it may stand in the name of a directory.
pub open spec fn segment_char(ch: char) -> char {
    if ascii_alphanumeric(ch) || ch == '-' || ch == '_' {
        ch
    } else {
        '-'
    }
}

/// A name as it may stand in the name of a directory.
pub open spec fn segment(name: Text) -> Text {
    if name.len() == 0 {
        "mount"@
    } else {
        name.map_values(|ch: char| segment_char(ch))
    }
}

/// The hash of bytes: FNV-1a with 64 bits.
pub open spec fn fnv_hash(bytes: Seq<u8>) -> u64
    decreases bytes.len(),
{
    if bytes.len() == 0 {
        FNV_OFFSET
    } else {
        (fnv_hash(bytes.drop_last()) ^ (bytes.last() as u64)).wrapping_mul(FNV_PRIME)
    }
}

/// What a mount is told apart by.
pub open spec fn identity_text(name: Text, url: Text, mountpoint: Text, creds: Text) -> Text {
    "mount_name="@ + name + "\nnats_url="@ + (url + "\nmountpoint="@ + mountpoint) + ("\ncreds="@
        + creds)
}

/// The path of the credentials, empty where there are none.
pub open spec fn creds_text(creds: Option<String>) -> Text {
    match creds {
        Some(creds) => creds@,
        None => ""@,
    }
}

/// What a mount is told apart by.
pub open spec fn identity_of(cli: Cli) -> Text {
    identity_text(
        cli.mount_name@,
        cli.nats_url@,
        cli.mountpoint@,
        creds_text(cli.nats_creds_file),
    )
}

/// The name of the directory of a mount.
pub open spec fn directory_name(cli: Cli) -> Text {
    segment(cli.mount_name@) + "-"@ + hex_digits(
        fnv_hash(encode_utf8(identity_of(cli))) as nat,
        16,
    )
}

/// The directory of a mount.
pub open spec fn mount_directory(root: Seq<u8>, cli: Cli) -> Seq<u8> {
    joined(joined(root, encode_utf8("mounts"@)), encode_utf8(directory_name(cli)))
}

/// A path with one more part begins with the path and ends with the part, with one slash
/// between them where the path is not empty.
pub proof fn law_parts_are_put_behind_one_slash(base: Seq<u8>, part: Seq<u8>)
    ensures
        ({
            let path = joined(base, part);
            let place = path.len() - part.len();
            &&& place >= base.len()
            &&& path.take(base.len() as int) == base
            &&& path.skip(place) == part
            &&& base.len() == 0 ==> place == 0
            &&& base.len() > 0 ==> path[place - 1] == SLASH && place <= base.len() + 1
            &&& base.len() > 0 && base.last() == SLASH ==> place == base.len()
        }),
{
    let path = joined(base, part);
    let place = path.len() - part.len();
    assert(path.take(base.len() as int) =~= base);
    assert(path.skip(place) =~= part);
}

/// The state of all mounts is kept below the state directory where there is one, else below
/// the home directory, else below the current directory.
pub proof fn law_state_is_kept_where_it_is_said(
    state_home: Seq<u8>,
    home: Option<Seq<u8>>,
    home_directory: Seq<u8>,
    current_dir: Seq<u8>,
)
    ensures
        cache_root(Some(state_home), home, current_dir).take(state_home.len() as int) == state_home,
        cache_root(Some(state_home), home, current_dir) == joined(
            state_home,
            encode_utf8("eventfs"@),
        ),
        cache_root(None, Some(home_directory), current_dir).take(home_directory.len() as int)
            == home_directory,
        cache_root(None, Some(home_directory), current_dir) == joined(
            joined(joined(home_directory, encode_utf8(".local"@)), encode_utf8("state"@)),
            encode_utf8("eventfs"@),
        ),
        cache_root(None, None, current_dir) == joined(current_dir, encode_utf8(".eventfs-state"@)),
{
    law_parts_are_put_behind_one_slash(state_home, encode_utf8("eventfs"@));
    let one = joined(home_directory, encode_utf8(".local"@));
    let two = joined(one, encode_utf8("state"@));
    law_parts_are_put_behind_one_slash(home_directory, encode_utf8(".local"@));
    law_parts_are_put_behind_one_slash(one, encode_utf8("state"@));
    law_parts_are_put_behind_one_slash(two, encode_utf8("eventfs"@));
    let root = cache_root(None, Some(home_directory), current_dir);
    assert(root.take(home_directory.len() as int) =~= root.take(two.len() as int).take(
        one.len() as int,
    ).take(home_directory.len() as int));
}


/// Mounts that differ in their name, their server, their mountpoint or their credentials
/// are told apart, as long as none of these has a line break in it.
pub proof fn law_identities_differ(
    name: Text,
    url: Text,
    mountpoint: Text,
    creds: Text,
    other_name: Text,
    other_url: Text,
    other_mountpoint: Text,
    other_creds: Text,
)
    requires
        !name.contains('\n') && !url.contains('\n') && !mountpoint.contains('\n')
            && !creds.contains('\n'),
        !other_name.contains('\n') && !other_url.contains('\n') && !other_mountpoint.contains('\n')
            && !other_creds.contains('\n'),
        name != other_name || url != other_url || mountpoint != other_mountpoint || creds
            != other_creds,
    ensures
        identity_text(name, url, mountpoint, creds) != identity_text(
            other_name,
            other_url,
            other_mountpoint,
            other_creds,
        ),
{
    lemma_identity_lines(name, url, mountpoint, creds);
    lemma_identity_lines(other_name, other_url, other_mountpoint, other_creds);
    let one = identity_text(name, url, mountpoint, creds);
    let other = identity_text(other_name, other_url, other_mountpoint, other_creds);
    if one == other {
        let lines = split(one, '\n');
        assert(lines[0].skip("mount_name="@.len() as int) =~= name);
        assert(lines[0].skip("mount_name="@.len() as int) =~= other_name);
        assert(lines[1].skip("nats_url="@.len() as int) =~= url);
        assert(lines[1].skip("nats_url="@.len() as int) =~= other_url);
        assert(lines[2].skip("mountpoint="@.len() as int) =~= mountpoint);
        assert(lines[2].skip("mountpoint="@.len() as int) =~= other_mountpoint);
        assert(lines[3].skip("creds="@.len() as int) =~= creds);
        assert(lines[3].skip("creds="@.len() as int) =~= other_creds);
    }
}

proof fn lemma_no_break(label: Text, value: Text)
    requires
        !label.contains('\n'),
        !value.contains('\n'),
    ensures
        !(label + value).contains('\n'),
{
    let both = label + value;
    assert forall|i: int| 0 <= i < both.len() implies both[i] != '\n' by {
        if i < label.len() {
            assert(label[i] != '\n');
        } else {
            assert(value[i - label.len()] != '\n');
        }
    }
}

proof fn lemma_identity_lines(name: Text, url: Text, mountpoint: Text, creds: Text)
    requires
        !name.contains('\n') && !url.contains('\n') && !mountpoint.contains('\n')
            && !creds.contains('\n'),
    ensures
        split(identity_text(name, url, mountpoint, creds), '\n') == seq![
            "mount_name="@ + name,
            "nats_url="@ + url,
            "mountpoint="@ + mountpoint,
            "creds="@ + creds,
        ],
{
    reveal_strlit("mount_name=");
    reveal_strlit("nats_url=");
    reveal_strlit("mountpoint=");
    reveal_strlit("creds=");
    reveal_strlit("\nnats_url=");
    reveal_strlit("\nmountpoint=");
    reveal_strlit("\ncreds=");
    let a = "mount_name="@ + name;
    let b = "nats_url="@ + url;
    let c = "mountpoint="@ + mountpoint;
    let d = "creds="@ + creds;
    lemma_no_break("mount_name="@, name);
    lemma_no_break("nats_url="@, url);
    lemma_no_break("mountpoint="@, mountpoint);
    lemma_no_break("creds="@, creds);
    let last = c.push('\n') + d;
    let rest = b.push('\n') + last;
    let whole = identity_text(name, url, mountpoint, creds);
    assert("\nnats_url="@ =~= seq!['\n'] + "nats_url="@);
    assert("\nmountpoint="@ =~= seq!['\n'] + "mountpoint="@);
    assert("\ncreds="@ =~= seq!['\n'] + "creds="@);
    assert(whole =~= a.push('\n') + rest);
    lemma_split_without(a, '\n');
    lemma_split_without(b, '\n');
    lemma_split_without(c, '\n');
    lemma_split_without(d, '\n');
    lemma_split_around(a, rest, '\n');
    lemma_split_around(b, last, '\n');
    lemma_split_around(c, d, '\n');
    assert(split(whole, '\n') =~= seq![a, b, c, d]);
}

/// The name of a mount's directory is one part of a path: nothing but letters, digits,
/// `-` and `_` stands in it.
pub proof fn law_segments_are_one_part(name: Text)
    ensures
        segment(name).len() > 0,
        forall|i: int|
            0 <= i < segment(name).len() ==> ascii_alphanumeric(#[trigger] segment(name)[i])
                || segment(name)[i] == '-' || segment(name)[i] == '_',
        segment(segment(name)) == segment(name),
{
    reveal_strlit("mount");
    assert(segment(segment(name)) =~= segment(name));
}

/// A path with one more part.
pub fn join_path(base: &[u8], part: &str) -> (path: Vec<u8>)
    ensures
        path@ == joined(base@, encode_utf8(part@)),
{
    let mut path = copy_bytes(base);
    if path.len() > 0 && path[path.len() - 1] != SLASH {
        path.push(SLASH);
    }
    append_bytes(&mut path, part.as_bytes());
    assert(path@ =~= joined(base@, encode_utf8(part@)));
    path
}

/// The model of optional bytes.
pub open spec fn optional_bytes(bytes: Option<Vec<u8>>) -> Option<Seq<u8>> {
    match bytes {
        Some(bytes) => Some(bytes@),
        None => None,
    }
}

/// The directory below which the state of all mounts is kept.
pub fn default_cache_root_from(
    xdg_state_home: Option<Vec<u8>>,
    home: Option<Vec<u8>>,
    current_dir: Vec<u8>,
) -> (root: Vec<u8>)
    ensures
        root@ == cache_root(optional_bytes(xdg_state_home), optional_bytes(home), current_dir@),
{
    if let Some(path) = xdg_state_home {
        return join_path(path.as_slice(), "eventfs");
    }
    if let Some(home) = home {
        let local = join_path(home.as_slice(), ".local");
        let state = join_path(local.as_slice(), "state");
        return join_path(state.as_slice(), "eventfs");
    }
    join_path(current_dir.as_slice(), ".eventfs-state")
}

/// A name as it may stand in the name of a directory.
pub fn sanitize_cache_segment(value: &str) -> (sanitized: String)
    ensures
        sanitized@ == segment(value@),
{
    let chars = chars_of(value);
    if chars.len() == 0 {
        return "mount".to_owned();
    }
    let mut sanitized = String::new();
    let mut i: usize = 0;
    while i < chars.len()
        invariant
            i <= chars.len(),
            chars@ == value@,
            sanitized@.len() == i,
            forall|k: int| 0 <= k < i ==> #[trigger] sanitized@[k] == segment_char(chars@[k]),
        decreases chars.len() - i,
    {
        let ch = chars[i];
        if is_ascii_alphanumeric(ch) || ch == '-' || ch == '_' {
            sanitized.push(ch);
        } else {
            sanitized.push('-');
        }
        i += 1;
    }
    assert(sanitized@ =~= segment(value@));
    sanitized
}

/// The hash of bytes.
pub fn stable_hash(bytes: &[u8]) -> (hash: u64)
    ensures
        hash == fnv_hash(bytes@),
{
    let mut hash: u64 = FNV_OFFSET;
    let mut i: usize = 0;
    assert(bytes@.take(0) =~= Seq::empty());
    while i < bytes.len()
        invariant
            i <= bytes.len(),
            hash == fnv_hash(bytes@.take(i as int)),
        decreases bytes.len() - i,
    {
        let ghost upto = bytes@.take(i + 1);
        assert(upto.drop_last() =~= bytes@.take(i as int));
        assert(upto.last() == bytes@[i as int]);
        hash = (hash ^ (bytes[i] as u64)).wrapping_mul(FNV_PRIME);
        i += 1;
    }
    assert(bytes@.take(bytes@.len() as int) =~= bytes@);
    hash
}

/// What a mount is told apart by.
pub fn mount_identity(cli: &Cli) -> (identity: String)
    ensures
        identity@ == identity_of(*cli),
{
    let creds = match &cli.nats_creds_file {
        Some(creds) => creds.as_str(),
        None => "",
    };
    let first = concat3("mount_name=", cli.mount_name.as_str(), "\nnats_url=");
    let second = concat3(cli.nats_url.as_str(), "\nmountpoint=", cli.mountpoint.as_str());
    let third = concat2("\ncreds=", creds);
    concat3(first.as_str(), second.as_str(), third.as_str())
}

/// The directory of a mount.
pub fn cache_dir_for_identity(root: &[u8], cli: &Cli) -> (directory: Vec<u8>)
    ensures
        directory@ == mount_directory(root@, *cli),
{
    let identity = mount_identity(cli);
    let name = sanitize_cache_segment(cli.mount_name.as_str());
    let digits = hex16_text(stable_hash(identity.as_str().as_bytes()));
    let directory = concat3(name.as_str(), "-", digits.as_str());
    let mounts = join_path(root, "mounts");
    join_path(mounts.as_slice(), directory.as_str())
}

} // verus!

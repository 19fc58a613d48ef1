//! Bridge configuration.

use crate::text::{
    copy_texts, pieces_end_at_separators, pieces_of, split, texts, trim, trimmed,
};
use std::path::PathBuf;
use vstd::prelude::*;

verus! {

/// `std::path::PathBuf`, carried through as it is.
#[verifier::external_type_specification]
#[verifier::external_body]
pub struct ExPathBuf(PathBuf);

/// The topic prefix that always crosses.
pub const FLEET_PREFIX: &'static str = "wm.fleet.";

/// Configuration for the bridge daemon.
#[derive(Debug)]
pub struct BridgeConfig {
    /// Path to the agorabus Unix-domain socket.
    pub socket_path: PathBuf,
    /// NATS server URL for the local leaf node.
    pub nats_url: String,
    /// Additional allowlisted fleet topic prefixes (beyond `wm.fleet.`).
    pub extra_allow: Vec<String>,
}

/// The allowlist that has `extra` beyond the fleet prefix.
pub open spec fn allow_list(extra: Seq<Seq<char>>) -> Seq<Seq<char>> {
    seq![FLEET_PREFIX@] + extra
}

/// The prefixes that a comma-separated list names, each without the white space
/// around it. An empty list names none.
pub open spec fn listed(text: Seq<char>) -> Seq<Seq<char>> {
    if text.len() == 0 {
        seq![]
    } else {
        pieces_of(text, ',').map_values(|piece: Seq<char>| trimmed(piece))
    }
}

/// Where the agorabus socket is, below a home directory.
pub open spec fn socket_below(home: Seq<char>) -> Seq<char> {
    if home.len() == 0 || home.last() == '/' {
        home + ".cache/agorabus/sock"@
    } else {
        home + "/"@ + ".cache/agorabus/sock"@
    }
}

impl BridgeConfig {
    /// The allowlist of topic prefixes that cross to NATS.
    ///
    /// Always includes `wm.fleet.`. Additional prefixes come from `extra_allow`.
    pub fn fleet_allow_prefixes(&self) -> (prefixes: Vec<String>)
        ensures
            texts(prefixes@) == allow_list(texts(self.extra_allow@)),
            prefixes@.len() == self.extra_allow@.len() + 1,
            prefixes@[0]@ == "wm.fleet."@,
            forall|i: int|
                0 <= i < self.extra_allow@.len() ==> prefixes@[i + 1]@ == (
                #[trigger] self.extra_allow@[i])@,
    {
        let mut prefixes: Vec<String> = Vec::new();
        prefixes.push(FLEET_PREFIX.to_string());
        let mut extra = copy_texts(&self.extra_allow);
        let ghost added = texts(extra@);
        prefixes.append(&mut extra);
        assert(texts(prefixes@) =~= seq![FLEET_PREFIX@] + added);
        proof {
            let all = texts(prefixes@);
            let extra = texts(self.extra_allow@);
            assert(all.len() == prefixes@.len() && extra.len() == self.extra_allow@.len());
            assert(all[0] == prefixes@[0]@);
            assert forall|i: int| 0 <= i < self.extra_allow@.len() implies prefixes@[i + 1]@ == (
            #[trigger] self.extra_allow@[i])@ by {
                assert(all[i + 1] == prefixes@[i + 1]@);
                assert(extra[i] == self.extra_allow@[i]@);
            }
        }
        prefixes
    }
}

/// The additional prefixes that a comma-separated list names.
pub fn parse_allow(text: &str) -> (prefixes: Vec<String>)
    ensures
        texts(prefixes@) == listed(text@),
{
    let mut prefixes: Vec<String> = Vec::new();
    if text.is_empty() {
        assert(texts(prefixes@) =~= listed(text@));
        return prefixes;
    }
    let pieces = split(text, ',');
    let mut i: usize = 0;
    while i < pieces.len()
        invariant
            i <= pieces@.len(),
            prefixes@.len() == i,
            forall|k: int| 0 <= k < i ==> (#[trigger] prefixes@[k])@ == trimmed(pieces@[k]@),
        decreases pieces@.len() - i,
    {
        prefixes.push(trim(pieces[i].as_str()));
        i = i + 1;
    }
    assert(texts(prefixes@) =~= listed(text@)) by {
        assert(texts(pieces@) == pieces_of(text@, ','));
        assert forall|k: int| 0 <= k < pieces@.len() implies #[trigger] texts(pieces@)[k]
            == pieces@[k]@ by {}
    }
    prefixes
}

/// The default agorabus socket: `.cache/agorabus/sock` below the home directory,
/// or a place under `/tmp` by user id (`0` where that is not known) without one.
pub fn default_socket_path(home: Option<&str>, uid: Option<&str>) -> (path: String)
    ensures
        path@ == (match home {
            Some(home) => socket_below(home@),
            None => "/tmp/agorabus-"@ + (match uid {
                Some(uid) => uid@,
                None => "0"@,
            }) + "/sock"@,
        }),
{
    let mut path = String::new();
    match home {
        Some(home) => {
            path.append(home);
            let n = home.unicode_len();
            if n > 0 && home.get_char(n - 1) != '/' {
                path.append("/");
            }
            path.append(".cache/agorabus/sock");
            assert(path@ =~= socket_below(home@));
        },
        None => {
            path.append("/tmp/agorabus-");
            match uid {
                Some(uid) => path.append(uid),
                None => path.append("0"),
            }
            path.append("/sock");
        },
    }
    assert(Seq::<char>::empty() + "/tmp/agorabus-"@ =~= "/tmp/agorabus-"@);
    path
}

// ─── laws ───────────────────────────────────────────────────────────────────
/// The allowlist is the fleet prefix and, behind it, all that is allowed beyond it.
pub proof fn the_fleet_prefix_and_all_others_are_allowed(extra: Seq<Seq<char>>)
    ensures
        allow_list(extra).len() == extra.len() + 1,
        allow_list(extra)[0] == "wm.fleet."@,
        allow_list(extra).skip(1) == extra,
{
    assert(allow_list(extra).skip(1) =~= extra);
}

/// A list names what stands between its commas, each without the white space around it;
/// an empty one names nothing.
pub proof fn lists_are_split_at_commas(piece: Seq<char>, rest: Seq<char>)
    requires
        forall|i: int| 0 <= i < piece.len() ==> #[trigger] piece[i] != ',',
    ensures
        piece.len() > 0 ==> listed(piece) == seq![trimmed(piece)],
        piece.len() == 0 ==> listed(piece) == Seq::<Seq<char>>::empty(),
        rest.len() > 0 ==> listed(piece + seq![','] + rest) == seq![trimmed(piece)] + listed(rest),
        listed(piece + seq![',']) == seq![trimmed(piece), trimmed(seq![])],
{
    pieces_end_at_separators(piece, rest, ',');
    pieces_end_at_separators(piece, seq![], ',');
    pieces_end_at_separators(seq![], seq![], ',');
    assert(piece + seq![','] + seq![] =~= piece + seq![',']);
    if piece.len() > 0 {
        assert(listed(piece) =~= seq![trimmed(piece)]);
    }
    if rest.len() > 0 {
        assert(listed(piece + seq![','] + rest) =~= seq![trimmed(piece)] + listed(rest));
    }
    assert(listed(piece + seq![',']) =~= seq![trimmed(piece), trimmed(seq![])]);
}

/// The socket stands in a fixed place below the home directory, with one slash between.
pub proof fn the_socket_stands_below_home(home: Seq<char>)
    ensures
        home.len() > 0 && home[home.len() - 1] != '/' ==> socket_below(home) == home
            + "/.cache/agorabus/sock"@,
        socket_below(home + seq!['/']) == home + "/.cache/agorabus/sock"@,
        socket_below(seq![]) == ".cache/agorabus/sock"@,
{
    reveal_strlit("/.cache/agorabus/sock");
    reveal_strlit("/");
    reveal_strlit(".cache/agorabus/sock");
    assert("/.cache/agorabus/sock"@ =~= "/"@ + ".cache/agorabus/sock"@);
    assert(home + "/"@ + ".cache/agorabus/sock"@ =~= home + "/.cache/agorabus/sock"@);
    assert(seq!['/'] =~= "/"@);
    assert(home + seq!['/'] + ".cache/agorabus/sock"@ =~= home + "/.cache/agorabus/sock"@);
    assert((home + seq!['/']).last() == '/');
    assert(Seq::<char>::empty() + ".cache/agorabus/sock"@ =~= ".cache/agorabus/sock"@);
}

} // verus!

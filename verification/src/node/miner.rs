//! The report on freshly generated mining keys.
use crate::text::join;
use vstd::prelude::*;
use vstd::string::*;

verus! {

/// The texts in a list.
pub open spec fn line_views(lines: Seq<String>) -> Seq<Seq<char>> {
    lines.map_values(|l: String| l@)
}

/// What is told about an address and its key.
pub open spec fn key_lines(address: Seq<char>, private_key: Seq<char>) -> Seq<Seq<char>> {
    seq![
        "✅ Generated new validator keys:"@,
        ""@,
        "📍 Validator Address: "@ + address,
        "🔐 Private Key: "@ + private_key,
        ""@,
        "💾 To use these keys (validator address is derived from the private key):"@,
        "export BSC_MINING_ENABLED=true"@,
        "export BSC_PRIVATE_KEY="@ + private_key,
        ""@,
        "🚀 Then start mining with:"@,
        "cargo run -- --chain bsc --datadir ./datadir"@,
        ""@,
        "⚠️  Keep your private key secure!"@,
        "⚠️  These are development keys - not for mainnet!"@,
    ]
}

/// What is told about generated keys: how to use them, or that there are none.
pub fn mining_key_report(address: Option<&str>, private_key: Option<&str>) -> (r: Result<
    Vec<String>,
    String,
>)
    ensures
        match (address, private_key) {
            (Some(a), Some(k)) => r matches Ok(lines) && line_views(lines@) == key_lines(a@, k@),
            _ => r matches Err(e) && e@ == "❌ Failed to generate keys"@,
        },
        r is Ok <==> address is Some && private_key is Some,
        r matches Ok(lines) ==> {
            &&& lines@.len() == 14
            &&& lines@[0]@ == "✅ Generated new validator keys:"@
            &&& lines@[1]@ == ""@
            &&& lines@[2]@ == "📍 Validator Address: "@ + address->0@
            &&& lines@[3]@ == "🔐 Private Key: "@ + private_key->0@
            &&& lines@[4]@ == ""@
            &&& lines@[5]@
                == "💾 To use these keys (validator address is derived from the private key):"@
            &&& lines@[6]@ == "export BSC_MINING_ENABLED=true"@
            &&& lines@[7]@ == "export BSC_PRIVATE_KEY="@ + private_key->0@
            &&& lines@[8]@ == ""@
            &&& lines@[9]@ == "🚀 Then start mining with:"@
            &&& lines@[10]@ == "cargo run -- --chain bsc --datadir ./datadir"@
            &&& lines@[11]@ == ""@
            &&& lines@[12]@ == "⚠️  Keep your private key secure!"@
            &&& lines@[13]@ == "⚠️  These are development keys - not for mainnet!"@
        },
        r matches Err(e) ==> e@ == "❌ Failed to generate keys"@,
{
    match (address, private_key) {
        (Some(a), Some(k)) => {
            let lines = vec![
                String::from_str("✅ Generated new validator keys:"),
                String::from_str(""),
                join("📍 Validator Address: ", a),
                join("🔐 Private Key: ", k),
                String::from_str(""),
                String::from_str(
                    "💾 To use these keys (validator address is derived from the private key):",
                ),
                String::from_str("export BSC_MINING_ENABLED=true"),
                join("export BSC_PRIVATE_KEY=", k),
                String::from_str(""),
                String::from_str("🚀 Then start mining with:"),
                String::from_str("cargo run -- --chain bsc --datadir ./datadir"),
                String::from_str(""),
                String::from_str("⚠️  Keep your private key secure!"),
                String::from_str("⚠️  These are development keys - not for mainnet!"),
            ];
            assert(line_views(lines@) =~= key_lines(a@, k@));
            Ok(lines)
        },
        _ => Err(String::from_str("❌ Failed to generate keys")),
    }
}

/// Whoever follows the report mines: it says to switch mining on, and to hand the very key that it
/// shows to the node before the node is started.
pub proof fn law_report_tells_how_to_mine(lines: Seq<String>, address: Seq<char>, key: Seq<char>)
    requires
        line_views(lines) == key_lines(address, key),
    ensures
        exists|on: int, with: int, go: int|
            #![trigger lines[on], lines[with], lines[go]]
            {
                &&& 0 <= on < go < lines.len()
                &&& 0 <= with < go
                &&& lines[on]@ == "export BSC_MINING_ENABLED=true"@
                &&& lines[with]@ == "export BSC_PRIVATE_KEY="@ + key
                &&& lines[go]@ == "cargo run -- --chain bsc --datadir ./datadir"@
            },
        exists|i: int|
            0 <= i < lines.len() && (#[trigger] lines[i])@ == "📍 Validator Address: "@ + address,
        exists|i: int|
            0 <= i < lines.len() && (#[trigger] lines[i])@ == "🔐 Private Key: "@ + key,
{
    let views = line_views(lines);
    assert(views.len() == lines.len());
    assert forall|i: int| 0 <= i < lines.len() implies (#[trigger] lines[i])@ == views[i] by {}
    assert(lines[6]@ == views[6] && lines[7]@ == views[7] && lines[10]@ == views[10]);
    assert(lines[2]@ == views[2] && lines[3]@ == views[3]);
}

/// The reports on two pairs of keys differ where the addresses or the keys do.
pub proof fn law_reports_tell_keys_apart(
    address: Seq<char>,
    key: Seq<char>,
    other_address: Seq<char>,
    other_key: Seq<char>,
)
    requires
        key_lines(address, key) == key_lines(other_address, other_key),
    ensures
        address == other_address,
        key == other_key,
{
    let a = key_lines(address, key);
    let b = key_lines(other_address, other_key);
    let shown = "📍 Validator Address: "@;
    let export = "export BSC_PRIVATE_KEY="@;
    assert(a[2] == shown + address && b[2] == shown + other_address);
    assert(a[7] == export + key && b[7] == export + other_key);
    assert((shown + address).skip(shown.len() as int) =~= address);
    assert((shown + other_address).skip(shown.len() as int) =~= other_address);
    assert((export + key).skip(export.len() as int) =~= key);
    assert((export + other_key).skip(export.len() as int) =~= other_key);
}

} // verus!

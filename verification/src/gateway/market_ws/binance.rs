//! Market data of Binance.

use vstd::prelude::*;

use crate::text::{join, joined, parts_are_joined};

verus! {

/// A text in lower case.
pub uninterp spec fn lowercase(s: Seq<char>) -> Seq<char>;

/// The lower-case form of an ASCII upper-case letter; any other character as it is.
pub open spec fn ascii_lower(c: char) -> char {
    if 'A' <= c <= 'Z' {
        ((c as u32) + 32) as char
    } else {
        c
    }
}

/// A text with its ASCII letters in lower case.
pub open spec fn lowered(s: Seq<char>) -> Seq<char> {
    s.map_values(|c: char| ascii_lower(c))
}

/// Whether a text has only ASCII characters.
pub open spec fn is_ascii_text(s: Seq<char>) -> bool {
    forall|i: int| 0 <= i < s.len() ==> (#[trigger] s[i] as u32) < 128
}

/// `str::to_lowercase` gives the lower-case form of a text by the tables of Unicode, which is a
/// function of the text. Of ASCII characters it lowers the letters and keeps the others.
#[verifier::external_body]
fn to_lowercase(s: &str) -> (r: String)
    ensures
        r@ == lowercase(s@),
        is_ascii_text(s@) ==> r@ == lowered(s@),
{
    s.to_lowercase()
}

/// The name of a symbol's depth stream.
pub open spec fn stream_name(symbol: Seq<char>) -> Seq<char> {
    lowercase(symbol) + "@depth@100ms"@
}

/// The address of the depth streams of symbols.
pub open spec fn stream_address(symbols: Seq<Seq<char>>) -> Seq<char> {
    "wss://fstream.binance.com/stream?streams="@ + joined(
        symbols.map_values(|symbol: Seq<char>| stream_name(symbol)),
        "/"@,
    )
}

pub fn stream_url(symbols: &Vec<String>) -> (r: Result<String, String>)
    ensures
        match r {
            Ok(url) => symbols.len() > 0 && url@ == stream_address(symbols.deep_view()),
            Err(why) => symbols.len() == 0 && why@ == "no subscribed symbols"@,
        },
        forall|i: int|
            0 <= i < symbols.len() && is_ascii_text(#[trigger] symbols.deep_view()[i])
                ==> lowercase(symbols.deep_view()[i]) == lowered(symbols.deep_view()[i]),
{
    if symbols.len() == 0 {
        return Err("no subscribed symbols".to_owned());
    }
    let mut names: Vec<String> = Vec::new();
    let mut i: usize = 0;
    while i < symbols.len()
        invariant
            i <= symbols.len(),
            names.len() == i,
            forall|j: int|
                0 <= j < i ==> (#[trigger] names.deep_view()[j]) == stream_name(
                    symbols.deep_view()[j],
                ),
            forall|j: int|
                0 <= j < i && is_ascii_text(#[trigger] symbols.deep_view()[j]) ==> lowercase(
                    symbols.deep_view()[j],
                ) == lowered(symbols.deep_view()[j]),
        decreases symbols.len() - i,
    {
        let ghost before = names.deep_view();
        let mut name = to_lowercase(symbols[i].as_str());
        assert(symbols.deep_view()[i as int] == symbols[i as int]@);
        name.append("@depth@100ms");
        let ghost nv = name@;
        names.push(name);
        assert(names.deep_view() =~= before.push(nv));
        i += 1;
    }
    assert(names.deep_view() =~= symbols.deep_view().map_values(
        |symbol: Seq<char>| stream_name(symbol),
    ));
    let mut url = "wss://fstream.binance.com/stream?streams=".to_owned();
    url.append(join(&names, "/").as_str());
    Ok(url)
}

/// The address of one symbol names its stream in lower case, with its depth each 100 milliseconds;
/// each further symbol adds its stream behind a slash.
pub proof fn addresses_name_every_stream(symbols: Seq<Seq<char>>, symbol: Seq<char>)
    ensures
        stream_address(seq![symbol]) == "wss://fstream.binance.com/stream?streams="@ + (lowercase(
            symbol,
        ) + "@depth@100ms"@),
        symbols.len() > 0 ==> stream_address(symbols.push(symbol)) == stream_address(symbols) + "/"@
            + (lowercase(symbol) + "@depth@100ms"@),
{
    let name = |symbol: Seq<char>| stream_name(symbol);
    let names = symbols.map_values(name);
    assert(seq![symbol].map_values(name) =~= seq![stream_name(symbol)]);
    assert(symbols.push(symbol).map_values(name) =~= names.push(stream_name(symbol)));
    parts_are_joined(names, "/"@, stream_name(symbol));
    if symbols.len() > 0 {
        let head = "wss://fstream.binance.com/stream?streams="@;
        assert(head + (joined(names, "/"@) + "/"@ + stream_name(symbol)) =~= head + joined(
            names,
            "/"@,
        ) + "/"@ + stream_name(symbol));
    }
}

/// Lowering puts each capital ASCII letter at the same place of the small alphabet, and keeps every other
/// character.
pub proof fn small_letters_stand_in_place(s: Seq<char>, i: int)
    requires
        0 <= i < s.len(),
    ensures
        lowered(s).len() == s.len(),
        'A' <= s[i] <= 'Z' ==> lowered(s)[i] as int - 'a' as int == s[i] as int - 'A' as int,
        !('A' <= s[i] <= 'Z') ==> lowered(s)[i] == s[i],
{
}

} // verus!

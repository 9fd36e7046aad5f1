//! The format of `ed2k://` links: `ed2k://|file|<name>|<size>|<hash>|/`, where further fields may
//! stand before the slash. A field `s=<url>` names an HTTP source of the file.

use vstd::prelude::*;
use vstd::string::*;

use crate::ed2k::ED2KDownloader;
use crate::number;
use crate::percent;
use crate::text;

verus! {

/// What an `ed2k://` link says.
#[derive(Debug, PartialEq, Eq)]
pub struct Ed2kInfo {
    pub name: String,
    pub size: u64,
    pub hash: String,
    pub sources: Vec<String>,
}

/// What an `ed2k://` link says, as texts and a number.
#[verifier::ext_equal]
pub struct LinkModel {
    pub name: Seq<char>,
    pub size: u64,
    pub hash: Seq<char>,
    pub sources: Seq<Seq<char>>,
}

impl View for Ed2kInfo {
    type V = LinkModel;

    open spec fn view(&self) -> LinkModel {
        LinkModel {
            name: self.name@,
            size: self.size,
            hash: self.hash@,
            sources: text::texts(self.sources@),
        }
    }
}

/// The outcome of reading a link, as texts.
pub open spec fn outcome(res: Result<Ed2kInfo, String>) -> Result<LinkModel, Seq<char>> {
    match res {
        Ok(info) => Ok(info@),
        Err(message) => Err(message@),
    }
}

/// The number of bytes of `text` in UTF-8.
pub open spec fn byte_len(text: Seq<char>) -> nat {
    vstd::utf8::encode_utf8(text).len()
}

/// `text` starts like an HTTP address.
pub open spec fn is_http(text: Seq<char>) -> bool {
    "http://"@.is_prefix_of(text) || "https://"@.is_prefix_of(text)
}

/// The source that `field` names: what follows `s=`, decoded, if that is an HTTP address.
pub open spec fn source_of(field: Seq<char>) -> Option<Seq<char>> {
    if "s="@.is_prefix_of(field) {
        let source = percent::decoded(field.skip("s="@.len() as int));
        if is_http(source) {
            Some(source)
        } else {
            None
        }
    } else {
        None
    }
}

/// The sources that `fields` name, in order.
pub open spec fn sources_of(fields: Seq<Seq<char>>) -> Seq<Seq<char>>
    decreases fields.len(),
{
    if fields.len() == 0 {
        Seq::empty()
    } else {
        let before = sources_of(fields.drop_last());
        match source_of(fields.last()) {
            Some(source) => before.push(source),
            None => before,
        }
    }
}

/// What the link `url`, with these fields, says, or why it is refused.
pub open spec fn link_of_fields(url: Seq<char>, fields: Seq<Seq<char>>) -> Result<
    LinkModel,
    Seq<char>,
> {
    if fields.len() < 5 {
        Err("Invalid ED2K URL format, insufficient parts: "@ + url)
    } else if fields[1] != "file"@ {
        Err("Unsupported ED2K type: '"@ + fields[1] + "' (only 'file' supported)"@)
    } else if number::number(fields[3]) is None {
        Err("Failed to parse ED2K file size: '"@ + fields[3] + "'"@)
    } else if byte_len(fields[4]) != 32 {
        Err(
            "Invalid ED2K hash length: "@ + number::decimal(byte_len(fields[4]))
                + " (should be 32)"@,
        )
    } else {
        Ok(
            LinkModel {
                name: percent::decoded(fields[2]),
                size: number::number(fields[3])->0,
                hash: fields[4],
                sources: sources_of(fields.skip(5)),
            },
        )
    }
}

/// What the link `url` says, or why it is refused.
pub open spec fn link_of(url: Seq<char>) -> Result<LinkModel, Seq<char>> {
    if "ed2k://"@.is_prefix_of(url) {
        link_of_fields(url, text::fields(url.skip("ed2k://"@.len() as int), '|'))
    } else {
        Err("Invalid ed2k:// URL"@)
    }
}

/// The source that `field` names.
fn read_source(field: &str) -> (res: Option<String>)
    ensures
        (match res {
            Some(source) => source_of(field@) == Some(source@),
            None => source_of(field@) is None,
        }),
{
    match text::strip_prefix(field, "s=") {
        Some(escaped) => {
            let source = percent::percent_decode(escaped.as_str());
            if text::starts_with(source.as_str(), "http://") || text::starts_with(
                source.as_str(),
                "https://",
            ) {
                Some(source)
            } else {
                None
            }
        },
        None => None,
    }
}

impl ED2KDownloader {
    /// Reads an `ed2k://` link. Only links to files are supported.
    pub fn parse_ed2k_url(url: &str) -> (res: Result<Ed2kInfo, String>)
        ensures
            outcome(res) == link_of(url@),
    {
        let stripped = match text::strip_prefix(url, "ed2k://") {
            Some(stripped) => stripped,
            None => {
                return Err("Invalid ed2k:// URL".to_owned());
            },
        };
        let chars = text::chars_of(stripped.as_str());
        let parts = text::split(&chars, 0, '|');
        let ghost fields = text::texts(parts@);
        proof {
            assert(chars@.skip(0) =~= chars@);
        }
        if parts.len() < 5 {
            let mut message = "Invalid ED2K URL format, insufficient parts: ".to_owned();
            message.append(url);
            return Err(message);
        }
        assert(forall|i: int| 0 <= i < parts@.len() ==> fields[i] == #[trigger] parts@[i]@);
        if parts[1] != "file".to_owned() {
            let mut message = "Unsupported ED2K type: '".to_owned();
            message.append(parts[1].as_str());
            message.append("' (only 'file' supported)");
            return Err(message);
        }
        let name = percent::percent_decode(parts[2].as_str());
        let size = match number::parse_number(parts[3].as_str()) {
            Some(size) => size,
            None => {
                let mut message = "Failed to parse ED2K file size: '".to_owned();
                message.append(parts[3].as_str());
                message.append("'");
                return Err(message);
            },
        };
        let hash = parts[4].clone();
        let hash_len = hash.as_str().as_bytes().len();
        if hash_len != 32 {
            let mut message = "Invalid ED2K hash length: ".to_owned();
            message.append(number::decimal_text(hash_len as u64).as_str());
            message.append(" (should be 32)");
            return Err(message);
        }
        let mut sources: Vec<String> = Vec::new();
        let mut i: usize = 5;
        proof {
            assert(fields.subrange(5, 5) =~= Seq::<Seq<char>>::empty());
            assert(text::texts(sources@) =~= Seq::<Seq<char>>::empty());
        }
        while i < parts.len()
            invariant
                5 <= i <= parts@.len(),
                fields == text::texts(parts@),
                text::texts(sources@) == sources_of(fields.subrange(5, i as int)),
            decreases parts@.len() - i,
        {
            let ghost before = sources@;
            proof {
                assert(fields.subrange(5, i + 1).drop_last() =~= fields.subrange(5, i as int));
                assert(fields.subrange(5, i + 1).last() == parts@[i as int]@);
            }
            if let Some(source) = read_source(parts[i].as_str()) {
                sources.push(source);
                proof {
                    assert(text::texts(sources@) =~= text::texts(before).push(source@));
                }
            }
            i += 1;
        }
        proof {
            assert(fields.subrange(5, i as int) =~= fields.skip(5));
        }
        Ok(Ed2kInfo { name, size, hash, sources })
    }
}

/// The link with these fields after its scheme.
pub open spec fn link_with(fields: Seq<Seq<char>>) -> Seq<char> {
    "ed2k://"@ + text::joined(fields, seq!['|'])
}

/// The link to a file, with further fields.
pub open spec fn file_link(
    name: Seq<char>,
    size: u64,
    hash: Seq<char>,
    more: Seq<Seq<char>>,
) -> Seq<char> {
    link_with(
        seq![Seq::<char>::empty(), "file"@, name, number::decimal(size as nat), hash] + more,
    )
}

/// A number in decimal notation holds no field separator.
proof fn lemma_decimal_holds_no_bar(n: nat)
    ensures
        !number::decimal(n).contains('|'),
    decreases n,
{
    let shown = number::decimal(n);
    if n >= 10 {
        lemma_decimal_holds_no_bar(n / 10);
    }
    if shown.contains('|') {
        let k = choose|k: int| 0 <= k < shown.len() && shown[k] == '|';
        if n >= 10 && k < shown.len() - 1 {
            assert(number::decimal(n / 10)[k] == '|');
        }
    }
}

/// Reading a link to a file gives back what was written into it: the name, decoded, the size, the
/// hash and the sources among the further fields.
pub proof fn law_reading_undoes_writing(
    name: Seq<char>,
    size: u64,
    hash: Seq<char>,
    more: Seq<Seq<char>>,
)
    requires
        !name.contains('|'),
        !hash.contains('|'),
        byte_len(hash) == 32,
        forall|i: int| 0 <= i < more.len() ==> !(#[trigger] more[i]).contains('|'),
    ensures
        link_of(file_link(name, size, hash, more)) == Ok::<LinkModel, Seq<char>>(
            LinkModel { name: percent::decoded(name), size, hash, sources: sources_of(more) },
        ),
{
    let fields = seq![
        Seq::<char>::empty(),
        "file"@,
        name,
        number::decimal(size as nat),
        hash,
    ] + more;
    let url = file_link(name, size, hash, more);
    let body = text::joined(fields, seq!['|']);
    reveal_strlit("file");
    lemma_decimal_holds_no_bar(size as nat);
    number::law_number_undoes_decimal(size);
    assert forall|i: int| 0 <= i < fields.len() implies !(#[trigger] fields[i]).contains('|') by {
        if i >= 5 {
            assert(fields[i] == more[i - 5]);
        }
    }
    text::law_split_undoes_join(fields, '|');
    assert(url.subrange(0, "ed2k://"@.len() as int) =~= "ed2k://"@);
    assert(url.skip("ed2k://"@.len() as int) =~= body);
    assert(fields.skip(5) =~= more);
}

/// Links of the form `ed2k://|file|<name>|<size>|<hash>|/` are read.
pub proof fn law_documented_format_is_read(name: Seq<char>, size: u64, hash: Seq<char>)
    requires
        !name.contains('|'),
        !hash.contains('|'),
        byte_len(hash) == 32,
    ensures
        link_of(
            "ed2k://|file|"@ + name + "|"@ + number::decimal(size as nat) + "|"@ + hash + "|/"@,
        ) == Ok::<LinkModel, Seq<char>>(
            LinkModel { name: percent::decoded(name), size, hash, sources: Seq::empty() },
        ),
{
    let end = seq!["/"@];
    reveal_strlit("/");
    reveal_strlit("|/");
    reveal_strlit("|");
    reveal_strlit("s=");
    reveal_strlit("file");
    reveal_strlit("ed2k://");
    reveal_strlit("ed2k://|file|");
    law_reading_undoes_writing(name, size, hash, end);
    let fields = seq![
        Seq::<char>::empty(),
        "file"@,
        name,
        number::decimal(size as nat),
        hash,
    ] + end;
    let bar = seq!['|'];
    let n5 = fields.drop_last();
    let n4 = n5.drop_last();
    let n3 = n4.drop_last();
    let n2 = n3.drop_last();
    let n1 = n2.drop_last();
    assert(text::joined(n1, bar) == n1[0]);
    assert(text::joined(n2, bar) == text::joined(n1, bar) + bar + "file"@);
    assert(text::joined(n3, bar) == text::joined(n2, bar) + bar + name);
    assert(text::joined(n4, bar) == text::joined(n3, bar) + bar + number::decimal(size as nat));
    assert(text::joined(n5, bar) == text::joined(n4, bar) + bar + hash);
    assert(text::joined(fields, bar) == text::joined(n5, bar) + bar + "/"@);
    assert(file_link(name, size, hash, end) =~= "ed2k://|file|"@ + name + "|"@ + number::decimal(
        size as nat,
    ) + "|"@ + hash + "|/"@);
    assert(sources_of(end) =~= Seq::<Seq<char>>::empty()) by {
        reveal_with_fuel(sources_of, 2);
        assert(!"s="@.is_prefix_of("/"@));
    }
}

/// An HTTP address in a field `s=` is found again when each of its bytes is escaped.
pub proof fn law_escaped_source_is_found(address: Seq<u8>)
    requires
        is_http(percent::byte_chars(address)),
    ensures
        source_of("s="@ + percent::escaped(address)) == Some(percent::byte_chars(address)),
{
    let field = "s="@ + percent::escaped(address);
    percent::law_decoding_undoes_escaping(address);
    assert(field.subrange(0, "s="@.len() as int) =~= "s="@);
    assert(field.skip("s="@.len() as int) =~= percent::escaped(address));
}

/// An HTTP address without a percent sign is found as it stands.
pub proof fn law_plain_source_is_found(address: Seq<char>)
    requires
        is_http(address),
        !address.contains('%'),
    ensures
        source_of("s="@ + address) == Some(address),
{
    let field = "s="@ + address;
    percent::law_plain_text_stays(address);
    assert(field.subrange(0, "s="@.len() as int) =~= "s="@);
    assert(field.skip("s="@.len() as int) =~= address);
}

/// All sources of a link are HTTP addresses.
proof fn lemma_sources_are_http(fields: Seq<Seq<char>>)
    ensures
        forall|i: int| 0 <= i < sources_of(fields).len() ==> is_http(#[trigger] sources_of(fields)[i]),
    decreases fields.len(),
{
    if fields.len() > 0 {
        lemma_sources_are_http(fields.drop_last());
        let before = sources_of(fields.drop_last());
        assert forall|i: int| 0 <= i < sources_of(fields).len() implies is_http(
            #[trigger] sources_of(fields)[i],
        ) by {
            if i < before.len() {
                assert(sources_of(fields)[i] == before[i]);
            }
        }
    }
}

/// A link that is read has the documented form: its fields are `file`, a name, a size and a hash of
/// 32 bytes, and what is read from it are these, and HTTP addresses as sources.
pub proof fn law_read_links_are_well_formed(url: Seq<char>)
    requires
        link_of(url) is Ok,
    ensures
        ({
            let link = link_of(url)->Ok_0;
            let fields = text::fields(url.skip("ed2k://"@.len() as int), '|');
            &&& url == link_with(fields)
            &&& fields.len() >= 5
            &&& fields[1] == "file"@
            &&& link.name == percent::decoded(fields[2])
            &&& number::number(fields[3]) == Some(link.size)
            &&& link.hash == fields[4]
            &&& byte_len(link.hash) == 32
            &&& !link.hash.contains('|')
            &&& forall|i: int| 0 <= i < link.sources.len() ==> is_http(#[trigger] link.sources[i])
        }),
{
    let body = url.skip("ed2k://"@.len() as int);
    let fields = text::fields(body, '|');
    text::law_fields_join_to_text(body, '|');
    text::law_fields_hold_no_separator(body, '|');
    lemma_sources_are_http(fields.skip(5));
    assert(!fields[4].contains('|'));
    assert("ed2k://"@ + body =~= url);
}

/// What is read from a link is what the fields of the record hold, and a refusal is its message.
pub proof fn law_link_records(info: Ed2kInfo, message: String)
    ensures
        info@.name == info.name@,
        info@.size == info.size,
        info@.hash == info.hash@,
        info@.sources.len() == info.sources@.len(),
        forall|i: int| 0 <= i < info.sources@.len() ==> (#[trigger] info@.sources[i])
            == info.sources@[i]@,
        outcome(Ok(info)) == Ok::<LinkModel, Seq<char>>(info@),
        outcome(Err(message)) == Err::<LinkModel, Seq<char>>(message@),
{
}

/// Texts are encoded one after the other.
proof fn lemma_bytes_add_up(first: Seq<char>, second: Seq<char>)
    ensures
        byte_len(first + second) == byte_len(first) + byte_len(second),
    decreases first.len(),
{
    if first.len() == 0 {
        assert(first + second =~= second);
    } else {
        lemma_bytes_add_up(first.drop_first(), second);
        assert((first + second).drop_first() =~= first.drop_first() + second);
    }
}

/// The bytes of a text are those of its characters: one in ASCII, two below U+0800, three below
/// U+10000, four above.
pub proof fn law_bytes_of_characters(text: Seq<char>, c: char)
    ensures
        byte_len(Seq::empty()) == 0,
        byte_len(text.push(c)) == byte_len(text) + (if (c as int) < 0x80 {
            1nat
        } else if (c as int) < 0x800 {
            2
        } else if (c as int) < 0x10000 {
            3
        } else {
            4
        }),
{
    let one = seq![c];
    lemma_bytes_add_up(text, one);
    assert(text + one =~= text.push(c));
    vstd::utf8::char_is_scalar(c);
    assert(one.drop_first() =~= Seq::<char>::empty());
    assert(vstd::utf8::encode_utf8(one.drop_first()).len() == 0);
    assert(byte_len(one) == vstd::utf8::encode_scalar(c as u32).len());
}

/// A field `s=` names what its text decodes to, whichever part of it is escaped, if that starts with
/// `http://` or `https://`, and nothing otherwise.
pub proof fn law_source_fields(text: Seq<char>)
    ensures
        (exists|rest: Seq<char>| percent::decoded(text) == #[trigger] ("http://"@ + rest)) || (
        exists|rest: Seq<char>| percent::decoded(text) == #[trigger] ("https://"@ + rest))
            ==> source_of("s="@ + text) == Some(percent::decoded(text)),
        !(exists|rest: Seq<char>| percent::decoded(text) == #[trigger] ("http://"@ + rest)) && !(
        exists|rest: Seq<char>| percent::decoded(text) == #[trigger] ("https://"@ + rest))
            ==> source_of("s="@ + text) is None,
{
    let field = "s="@ + text;
    let source = percent::decoded(text);
    assert(field.subrange(0, "s="@.len() as int) =~= "s="@);
    assert(field.skip("s="@.len() as int) =~= text);
    lemma_prefix("http://"@, source);
    lemma_prefix("https://"@, source);
}

/// A text starts with a prefix exactly if it is the prefix and some rest.
proof fn lemma_prefix(prefix: Seq<char>, text: Seq<char>)
    ensures
        prefix.is_prefix_of(text) <==> exists|rest: Seq<char>| text == #[trigger] (prefix + rest),
{
    if prefix.is_prefix_of(text) {
        assert(text =~= prefix + text.skip(prefix.len() as int));
    }
    assert forall|rest: Seq<char>| text == #[trigger] (prefix + rest) implies prefix.is_prefix_of(
        text,
    ) by {
        assert(text.subrange(0, prefix.len() as int) =~= prefix);
    }
}

/// No other field names a source.
pub proof fn law_other_fields(field: Seq<char>)
    requires
        forall|text: Seq<char>| field != #[trigger] ("s="@ + text),
    ensures
        source_of(field) is None,
{
    lemma_prefix("s="@, field);
}

/// The sources of fields are the sources of each field, in order.
pub proof fn law_sources_in_order(first: Seq<Seq<char>>, second: Seq<Seq<char>>, field: Seq<char>)
    ensures
        sources_of(Seq::empty()) == Seq::<Seq<char>>::empty(),
        sources_of(seq![field]) == (match source_of(field) {
            Some(source) => seq![source],
            None => Seq::empty(),
        }),
        sources_of(first + second) == sources_of(first) + sources_of(second),
    decreases second.len(),
{
    let one = seq![field];
    assert(one.drop_last() =~= Seq::<Seq<char>>::empty());
    assert(sources_of(one.drop_last()) =~= Seq::<Seq<char>>::empty());
    assert(sources_of(one) =~= (match source_of(field) {
        Some(source) => seq![source],
        None => Seq::empty(),
    }));
    if second.len() == 0 {
        assert(first + second =~= first);
        assert(sources_of(first) + sources_of(second) =~= sources_of(first));
    } else {
        law_sources_in_order(first, second.drop_last(), field);
        assert((first + second).drop_last() =~= first + second.drop_last());
        assert(sources_of(first + second) =~= sources_of(first) + sources_of(second));
    }
}

/// Nothing but links with the scheme `ed2k://` is read.
pub proof fn law_other_schemes(url: Seq<char>)
    requires
        forall|rest: Seq<char>| url != #[trigger] ("ed2k://"@ + rest),
    ensures
        link_of(url) == Err::<LinkModel, Seq<char>>("Invalid ed2k:// URL"@),
{
    lemma_prefix("ed2k://"@, url);
}

/// A link with any fields is refused for the first thing that is wrong with it: too few fields,
/// another type, a size that is no number, a hash that has not 32 bytes. If nothing is wrong, its
/// fields are read.
pub proof fn law_links_by_their_fields(fields: Seq<Seq<char>>)
    requires
        fields.len() >= 1,
        forall|i: int| 0 <= i < fields.len() ==> !(#[trigger] fields[i]).contains('|'),
    ensures
        ({
            let url = "ed2k://"@ + text::joined(fields, seq!['|']);
            &&& fields.len() < 5 ==> link_of(url) == Err::<LinkModel, Seq<char>>(
                "Invalid ED2K URL format, insufficient parts: "@ + url,
            )
            &&& fields.len() >= 5 && fields[1] != "file"@ ==> link_of(url) == Err::<
                LinkModel,
                Seq<char>,
            >("Unsupported ED2K type: '"@ + fields[1] + "' (only 'file' supported)"@)
            &&& fields.len() >= 5 && fields[1] == "file"@ && number::number(fields[3]) is None
                ==> link_of(url) == Err::<LinkModel, Seq<char>>(
                "Failed to parse ED2K file size: '"@ + fields[3] + "'"@,
            )
            &&& fields.len() >= 5 && fields[1] == "file"@ && number::number(fields[3]) is Some
                && byte_len(fields[4]) != 32 ==> link_of(url) == Err::<LinkModel, Seq<char>>(
                "Invalid ED2K hash length: "@ + number::decimal(byte_len(fields[4]))
                    + " (should be 32)"@,
            )
            &&& fields.len() >= 5 && fields[1] == "file"@ && number::number(fields[3]) is Some
                && byte_len(fields[4]) == 32 ==> {
                &&& link_of(url) is Ok
                &&& link_of(url)->Ok_0.name == percent::decoded(fields[2])
                &&& number::number(fields[3]) == Some(link_of(url)->Ok_0.size)
                &&& link_of(url)->Ok_0.hash == fields[4]
                &&& link_of(url)->Ok_0.sources == sources_of(fields.skip(5))
            }
        }),
{
    let body = text::joined(fields, seq!['|']);
    let url = "ed2k://"@ + body;
    text::law_split_undoes_join(fields, '|');
    assert(url.subrange(0, "ed2k://"@.len() as int) =~= "ed2k://"@);
    assert(url.skip("ed2k://"@.len() as int) =~= body);
}

} // verus!

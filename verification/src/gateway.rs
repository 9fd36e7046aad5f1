//! Gateways that serve the files of `ed2k://` links over HTTP.

use vstd::prelude::*;
use vstd::string::*;

use crate::link::Ed2kInfo;
use crate::link::LinkModel;
use crate::number;
use crate::text;

verus! {

/// `template` holds a placeholder.
pub open spec fn has_placeholder(template: Seq<char>) -> bool {
    ||| text::occurs(template, "{hash}"@)
    ||| text::occurs(template, "{name}"@)
    ||| text::occurs(template, "{size}"@)
}

/// `template` with its placeholders filled in: first the hash, then the name, then the size.
pub open spec fn filled(template: Seq<char>, link: LinkModel) -> Seq<char> {
    let with_hash = text::replaced(template, "{hash}"@, link.hash);
    let with_name = text::replaced(with_hash, "{name}"@, link.name);
    text::replaced(with_name, "{size}"@, number::decimal(link.size as nat))
}

/// `text` without the slashes at its end.
pub open spec fn without_slashes(text: Seq<char>) -> Seq<char> {
    text::trimmed_end(text, |c: char| c == '/')
}

/// The address below `base` that serves the file with this hash.
pub open spec fn below(base: Seq<char>, hash: Seq<char>) -> Seq<char> {
    if "/hash"@.is_suffix_of(base) {
        base + "/"@ + hash
    } else {
        base + "/hash/"@ + hash
    }
}

/// The address of the file of `link` at the gateway `template`. White space around the template
/// does not count. A template with placeholders has them filled in, one without is the address
/// below which the gateway serves. An empty template gives an empty address.
pub open spec fn rendered(template: Seq<char>, link: LinkModel) -> Seq<char> {
    let template = text::trimmed(template);
    if template.len() == 0 {
        Seq::empty()
    } else if has_placeholder(template) {
        filled(template, link)
    } else {
        below(without_slashes(template), link.hash)
    }
}

/// The gateway `template` is no template, but one of the sources of `link`.
pub open spec fn is_own_source(template: Seq<char>, link: LinkModel) -> bool {
    !has_placeholder(template) && link.sources.contains(template)
}

/// The address to try at the gateway `template`: where it is a source of `link`, the source itself.
pub open spec fn address_at(template: Seq<char>, link: LinkModel) -> Seq<char> {
    if is_own_source(template, link) {
        template
    } else {
        rendered(template, link)
    }
}

/// The addresses to try for `link` at all gateways, in order.
pub open spec fn all_addresses(templates: Seq<Seq<char>>, link: LinkModel) -> Seq<Seq<char>> {
    templates.map_values(|template: Seq<char>| address_at(template, link))
}

/// The texts in `list` that are not empty, each where it occurs first.
pub open spec fn distinct(list: Seq<Seq<char>>) -> Seq<Seq<char>>
    decreases list.len(),
{
    if list.len() == 0 {
        Seq::empty()
    } else {
        let before = distinct(list.drop_last());
        let last = list.last();
        if last.len() == 0 || before.contains(last) {
            before
        } else {
            before.push(last)
        }
    }
}

/// The gateways that are used when none is configured.
pub open spec fn default_gateways() -> Seq<Seq<char>> {
    seq!["https://ed2k.lyoko.io/hash/{hash}"@]
}

/// The gateways to use when `configured` ones are given.
pub open spec fn effective_gateways(configured: Seq<Seq<char>>) -> Seq<Seq<char>> {
    if configured.len() == 0 {
        default_gateways()
    } else {
        configured
    }
}

/// The addresses to try for `link`: its own sources, then the gateways, nothing twice.
pub open spec fn candidates(link: LinkModel, configured: Seq<Seq<char>>) -> Seq<Seq<char>> {
    distinct(link.sources + all_addresses(effective_gateways(configured), link))
}

/// The gateways that are used when none is configured.
pub fn default_ed2k_gateways() -> (res: Vec<String>)
    ensures
        text::texts(res@) == default_gateways(),
        res@.len() == 1,
        res@[0]@ == "https://ed2k.lyoko.io/hash/{hash}"@,
{
    let mut res: Vec<String> = Vec::new();
    res.push("https://ed2k.lyoko.io/hash/{hash}".to_owned());
    proof {
        assert(text::texts(res@) =~= default_gateways());
    }
    res
}

/// Whether `template` holds a placeholder.
fn holds_placeholder(template: &Vec<char>) -> (res: bool)
    ensures
        res == has_placeholder(template@),
{
    text::contains(template, &text::chars_of("{hash}")) || text::contains(
        template,
        &text::chars_of("{name}"),
    ) || text::contains(template, &text::chars_of("{size}"))
}

/// The address of a file at a gateway.
pub fn render_gateway_url(template: &str, ed2k_info: &Ed2kInfo) -> (res: String)
    ensures
        res@ == rendered(template@, ed2k_info@),
{
    let mut template = text::trim(template);
    if template.len() == 0 {
        return String::new();
    }
    if holds_placeholder(&template) {
        proof {
            reveal_strlit("{hash}");
            reveal_strlit("{name}");
            reveal_strlit("{size}");
        }
        let hash = text::chars_of(ed2k_info.hash.as_str());
        let name = text::chars_of(ed2k_info.name.as_str());
        let size = text::chars_of(number::decimal_text(ed2k_info.size).as_str());
        let with_hash = text::replace(&template, &text::chars_of("{hash}"), &hash);
        let with_name = text::replace(&with_hash, &text::chars_of("{name}"), &name);
        let with_size = text::replace(&with_name, &text::chars_of("{size}"), &size);
        let res = text::text_of(&with_size, 0, with_size.len());
        proof {
            assert(res@ =~= with_size@);
        }
        return res;
    }
    text::trim_end_of(&mut template, '/');
    let served = text::ends_with(&template, "/hash");
    let mut res = text::text_of(&template, 0, template.len());
    proof {
        assert(res@ =~= template@);
    }
    if served {
        res.append("/");
    } else {
        res.append("/hash/");
    }
    res.append(ed2k_info.hash.as_str());
    res
}

/// Whether `list` holds `item`.
fn holds(list: &Vec<String>, item: &String) -> (res: bool)
    ensures
        res == text::texts(list@).contains(item@),
{
    let mut i: usize = 0;
    while i < list.len()
        invariant
            i <= list@.len(),
            forall|j: int| 0 <= j < i ==> (#[trigger] text::texts(list@)[j]) != item@,
        decreases list@.len() - i,
    {
        if list[i] == *item {
            proof {
                assert(text::texts(list@)[i as int] == item@);
            }
            return true;
        }
        i += 1;
    }
    false
}

/// Appends `item` to `list`, unless it is empty or already there.
fn push_distinct(list: &mut Vec<String>, item: String, Ghost(all): Ghost<Seq<Seq<char>>>)
    requires
        text::texts(old(list)@) == distinct(all),
    ensures
        text::texts(final(list)@) == distinct(all.push(item@)),
{
    proof {
        assert(all.push(item@).drop_last() =~= all);
    }
    if !item.as_str().is_empty() && !holds(list, &item) {
        let ghost before = list@;
        list.push(item);
        proof {
            assert(text::texts(list@) =~= text::texts(before).push(item@));
        }
    }
}

/// The address to try at a gateway.
fn address_to_try(template: &String, ed2k_info: &Ed2kInfo) -> (res: String)
    ensures
        res@ == address_at(template@, ed2k_info@),
{
    let chars = text::chars_of(template.as_str());
    if !holds_placeholder(&chars) && holds(&ed2k_info.sources, template) {
        template.clone()
    } else {
        render_gateway_url(template.as_str(), ed2k_info)
    }
}

/// The addresses to try for a link, in the order in which to try them.
pub fn build_candidate_urls(ed2k_info: &Ed2kInfo, gateways: &[String]) -> (res: Vec<String>)
    ensures
        text::texts(res@) == candidates(ed2k_info@, text::texts(gateways@)),
{
    let link_sources = &ed2k_info.sources;
    let ghost link = ed2k_info@;
    let mut res: Vec<String> = Vec::new();
    let mut i: usize = 0;
    proof {
        assert(text::texts(res@) =~= distinct(link.sources.take(0)));
    }
    while i < link_sources.len()
        invariant
            i <= link_sources@.len(),
            link.sources == text::texts(link_sources@),
            text::texts(res@) == distinct(link.sources.take(i as int)),
        decreases link_sources@.len() - i,
    {
        push_distinct(&mut res, link_sources[i].clone(), Ghost(link.sources.take(i as int)));
        proof {
            assert(link.sources.take(i as int).push(link.sources[i as int]) =~= link.sources.take(
                i + 1,
            ));
        }
        i += 1;
    }
    let templates = if gateways.len() == 0 {
        default_ed2k_gateways()
    } else {
        text::copies(gateways)
    };
    let ghost effective = effective_gateways(text::texts(gateways@));
    proof {
        assert(text::texts(templates@) =~= effective);
        assert(link.sources.take(i as int) =~= link.sources + all_addresses(effective, link).take(0));
    }
    let mut j: usize = 0;
    while j < templates.len()
        invariant
            j <= templates@.len(),
            link == ed2k_info@,
            effective == text::texts(templates@),
            text::texts(res@) == distinct(
                link.sources + all_addresses(effective, link).take(j as int),
            ),
        decreases templates@.len() - j,
    {
        let candidate = address_to_try(&templates[j], ed2k_info);
        let ghost seen = link.sources + all_addresses(effective, link).take(j as int);
        push_distinct(&mut res, candidate, Ghost(seen));
        proof {
            assert(candidate@ == all_addresses(effective, link)[j as int]);
            assert(seen.push(candidate@) =~= link.sources + all_addresses(effective, link).take(
                j + 1,
            ));
        }
        j += 1;
    }
    proof {
        assert(all_addresses(effective, link).take(j as int) =~= all_addresses(effective, link));
    }
    res
}

/// The list without duplicates holds exactly the texts of the list that are not empty, each once.
pub proof fn law_distinct_holds_each_once(list: Seq<Seq<char>>)
    ensures
        distinct(list).no_duplicates(),
        forall|item: Seq<char>|
            #![trigger distinct(list).contains(item)]
            distinct(list).contains(item) <==> list.contains(item) && item.len() > 0,
    decreases list.len(),
{
    let all = distinct(list);
    if list.len() > 0 {
        let init = list.drop_last();
        let before = distinct(init);
        let last = list.last();
        law_distinct_holds_each_once(init);
        assert(list =~= init.push(last));
        assert forall|item: Seq<char>| #[trigger] all.contains(item) implies list.contains(item)
            && item.len() > 0 by {
            let k = choose|k: int| 0 <= k < all.len() && all[k] == item;
            if k < before.len() {
                assert(before[k] == item);
                assert(before.contains(item));
                let j = choose|j: int| 0 <= j < init.len() && init[j] == item;
                assert(list[j] == item);
            } else {
                assert(item == last);
                assert(list[list.len() - 1] == item);
            }
        }
        assert forall|item: Seq<char>| list.contains(item) && item.len() > 0 implies #[trigger]
            all.contains(item) by {
            let j = choose|j: int| 0 <= j < list.len() && list[j] == item;
            if j < init.len() {
                assert(init[j] == item);
                assert(before.contains(item));
                let k = choose|k: int| 0 <= k < before.len() && before[k] == item;
                assert(all[k] == item);
            } else if !before.contains(last) {
                assert(all[all.len() - 1] == item);
            }
        }
    }
}

/// What comes earlier keeps its place: more texts behind a list only add to its end.
pub proof fn law_earlier_keeps_its_place(list: Seq<Seq<char>>, more: Seq<Seq<char>>)
    ensures
        distinct(list).is_prefix_of(distinct(list + more)),
    decreases more.len(),
{
    if more.len() == 0 {
        assert(list + more =~= list);
    } else {
        law_earlier_keeps_its_place(list, more.drop_last());
        assert((list + more).drop_last() =~= list + more.drop_last());
        let before = distinct(list + more.drop_last());
        assert(distinct(list + more).subrange(0, before.len() as int) =~= before);
        assert(distinct(list + more).subrange(0, distinct(list).len() as int) =~= before.subrange(
            0,
            distinct(list).len() as int,
        ));
    }
}

/// The candidates of a link are its sources and the addresses at the gateways, as far as they are
/// not empty, each once, the sources first.
pub proof fn law_candidates(link: LinkModel, configured: Seq<Seq<char>>)
    ensures
        candidates(link, configured).no_duplicates(),
        forall|url: Seq<char>|
            #![trigger candidates(link, configured).contains(url)]
            candidates(link, configured).contains(url) <==> url.len() > 0 && (
            link.sources.contains(url) || exists|i: int|
                0 <= i < effective_gateways(configured).len() && url == address_at(
                    #[trigger] effective_gateways(configured)[i],
                    link,
                )),
        distinct(link.sources).is_prefix_of(candidates(link, configured)),
{
    let gateways = effective_gateways(configured);
    let addresses = all_addresses(gateways, link);
    let list = link.sources + addresses;
    law_distinct_holds_each_once(list);
    law_earlier_keeps_its_place(link.sources, addresses);
    assert forall|url: Seq<char>| #![auto] list.contains(url) implies link.sources.contains(url)
        || exists|i: int|
        0 <= i < gateways.len() && url == address_at(#[trigger] gateways[i], link) by {
        let k = choose|k: int| 0 <= k < list.len() && list[k] == url;
        if k < link.sources.len() {
            assert(link.sources[k] == url);
        } else {
            let i = k - link.sources.len();
            assert(url == address_at(gateways[i], link));
        }
    }
    assert forall|url: Seq<char>| #![auto] link.sources.contains(url) implies list.contains(url) by {
        let k = choose|k: int| 0 <= k < link.sources.len() && link.sources[k] == url;
        assert(list[k] == url);
    }
    assert forall|i: int| 0 <= i < gateways.len() implies list.contains(
        address_at(#[trigger] gateways[i], link),
    ) by {
        assert(list[link.sources.len() + i] == address_at(gateways[i], link));
    }
}

/// There is nothing to try exactly if all sources and all addresses at the gateways are empty.
pub proof fn law_no_candidates(link: LinkModel, configured: Seq<Seq<char>>)
    ensures
        candidates(link, configured).len() == 0 <==> {
            &&& forall|i: int| 0 <= i < link.sources.len() ==> (#[trigger] link.sources[i]).len() == 0
            &&& forall|i: int|
                0 <= i < effective_gateways(configured).len() ==> address_at(
                    #[trigger] effective_gateways(configured)[i],
                    link,
                ).len() == 0
        },
{
    let gateways = effective_gateways(configured);
    let all = candidates(link, configured);
    law_candidates(link, configured);
    if all.len() == 0 {
        assert forall|i: int| 0 <= i < link.sources.len() implies (
        #[trigger] link.sources[i]).len() == 0 by {
            assert(link.sources.contains(link.sources[i]));
            assert(!all.contains(link.sources[i]));
        }
        assert forall|i: int| 0 <= i < gateways.len() implies address_at(
            #[trigger] gateways[i],
            link,
        ).len() == 0 by {
            assert(!all.contains(address_at(gateways[i], link)));
        }
    } else {
        assert(all.contains(all[0]));
    }
}

/// White space around a template does not count.
pub proof fn law_white_space_around_templates(
    before: Seq<char>,
    template: Seq<char>,
    after: Seq<char>,
    link: LinkModel,
)
    requires
        forall|i: int| 0 <= i < before.len() ==> text::is_white_space(#[trigger] before[i]),
        forall|i: int| 0 <= i < after.len() ==> text::is_white_space(#[trigger] after[i]),
    ensures
        rendered(before + template + after, link) == rendered(template, link),
{
    text::law_trimming_ignores_white_space(before, template, after);
}

/// Slashes or words after an address without placeholders add none.
proof fn lemma_no_placeholder_added(base: Seq<char>, more: Seq<char>)
    requires
        !has_placeholder(base),
        !more.contains('}'),
    ensures
        !has_placeholder(base + more),
{
    lemma_braces();
    text::lemma_occurs_not_later(base, more, "{hash}"@);
    text::lemma_occurs_not_later(base, more, "{name}"@);
    text::lemma_occurs_not_later(base, more, "{size}"@);
}

/// A gateway without placeholders serves below `/hash`, whether or not that is written out, and
/// however many slashes follow.
pub proof fn law_gateway_spellings(base: Seq<char>, slashes: nat, link: LinkModel)
    requires
        base.len() > 0,
        !text::is_white_space(base[0]),
        !text::is_white_space(base.last()),
        base.last() != '/',
        !has_placeholder(base),
        !"/hash"@.is_suffix_of(base),
    ensures
        rendered(base + text::repeated('/', slashes), link) == base + "/hash/"@ + link.hash,
        rendered(base + "/hash"@ + text::repeated('/', slashes), link) == base + "/hash/"@
            + link.hash,
{
    reveal_strlit("/");
    reveal_strlit("/hash");
    reveal_strlit("/hash/");
    let slash = |c: char| c == '/';
    let end = text::repeated('/', slashes);
    let served = base + "/hash"@;
    lemma_no_placeholder_added(base, end);
    lemma_no_placeholder_added(base, "/hash"@);
    lemma_no_placeholder_added(served, end);
    text::lemma_trimmed_stays(base + end);
    text::lemma_trimmed_stays(served + end);
    text::lemma_trimmed_end_skips(base, end, slash);
    text::lemma_trimmed_end_skips(served, end, slash);
    assert(served.subrange(served.len() - 5, served.len() as int) =~= "/hash"@);
    assert(served + "/"@ + link.hash =~= base + "/hash/"@ + link.hash);
}

/// Replacing a pattern leaves the first character, if the pattern starts otherwise.
proof fn lemma_first_character_stays(text: Seq<char>, pattern: Seq<char>, with: Seq<char>)
    requires
        text.len() > 0,
        pattern.len() > 0,
        text[0] != pattern[0],
    ensures
        text::replaced(text, pattern, with).len() > 0,
        text::replaced(text, pattern, with)[0] == text[0],
{
    if pattern.is_prefix_of(text) {
        assert(text.subrange(0, pattern.len() as int)[0] == pattern[0]);
    }
}

/// A placeholder starts with a brace that it does not hold again, and ends with the other one.
proof fn lemma_braces()
    ensures
        "{hash}"@.len() > 0 && "{hash}"@[0] == '{' && "{hash}"@.last() == '}',
        "{name}"@.len() > 0 && "{name}"@[0] == '{' && "{name}"@.last() == '}',
        "{size}"@.len() > 0 && "{size}"@[0] == '{' && "{size}"@.last() == '}',
        !"{hash}"@.skip(1).contains('{'),
        !"{name}"@.skip(1).contains('{'),
        !"{size}"@.skip(1).contains('{'),
{
    reveal_strlit("{hash}");
    reveal_strlit("{name}");
    reveal_strlit("{size}");
}

/// How the default gateway is written.
proof fn lemma_default_gateway_text()
    ensures
        default_gateways()[0] == "https://ed2k.lyoko.io/hash/"@ + "{hash}"@,
        "https://ed2k.lyoko.io/hash/"@.len() > 0,
        "https://ed2k.lyoko.io/hash/"@[0] == 'h',
        !"https://ed2k.lyoko.io/hash/"@.contains('}'),
{
    reveal_strlit("https://ed2k.lyoko.io/hash/{hash}");
    reveal_strlit("https://ed2k.lyoko.io/hash/");
    reveal_strlit("{hash}");
    assert("https://ed2k.lyoko.io/hash/{hash}"@ =~= "https://ed2k.lyoko.io/hash/"@ + "{hash}"@);
}

/// The default gateway is a template with the hash at its end.
proof fn lemma_default_gateway()
    ensures
        text::trimmed(default_gateways()[0]) == default_gateways()[0],
        text::occurs(default_gateways()[0], "{hash}"@),
        !text::occurs("https://ed2k.lyoko.io/hash/"@, "{hash}"@),
        !text::occurs(Seq::<char>::empty(), "{hash}"@),
        default_gateways()[0].len() > 0,
        default_gateways()[0][0] == 'h',
{
    let start = "https://ed2k.lyoko.io/hash/"@;
    let mark = "{hash}"@;
    let empty = Seq::<char>::empty();
    lemma_braces();
    lemma_default_gateway_text();
    text::lemma_trimmed_stays(default_gateways()[0]);
    assert(start + mark + empty =~= start + mark);
    lemma_mark_occurs(start, mark, empty);
    assert(empty + start =~= start);
    text::lemma_occurs_not_later(empty, start, mark);
}

/// Without configured gateways there is something to try for every link.
pub proof fn law_default_gateway_is_tried(link: LinkModel)
    ensures
        candidates(link, Seq::empty()).len() > 0,
        candidates(link, Seq::empty()).contains(rendered(default_gateways()[0], link)),
{
    let none = Seq::<Seq<char>>::empty();
    let gateway = default_gateways()[0];
    let with_hash = text::replaced(gateway, "{hash}"@, link.hash);
    let with_name = text::replaced(with_hash, "{name}"@, link.name);
    lemma_braces();
    lemma_default_gateway();
    lemma_first_character_stays(gateway, "{hash}"@, link.hash);
    lemma_first_character_stays(with_hash, "{name}"@, link.name);
    lemma_first_character_stays(with_name, "{size}"@, number::decimal(link.size as nat));
    law_candidates(link, none);
    assert(effective_gateways(none)[0] == gateway);
    assert(address_at(gateway, link) == rendered(gateway, link));
}

/// The default gateway serves a file at `https://ed2k.lyoko.io/hash/<hash>`, unless the hash brings
/// further placeholders in.
pub proof fn law_default_gateway_address(link: LinkModel)
    requires
        !text::occurs("https://ed2k.lyoko.io/hash/"@ + link.hash, "{name}"@),
        !text::occurs("https://ed2k.lyoko.io/hash/"@ + link.hash, "{size}"@),
    ensures
        rendered(default_gateways()[0], link) == "https://ed2k.lyoko.io/hash/"@ + link.hash,
{
    let start = "https://ed2k.lyoko.io/hash/"@;
    let empty = Seq::<char>::empty();
    lemma_default_gateway_text();
    lemma_default_gateway();
    assert(start + "{hash}"@ + empty =~= start + "{hash}"@);
    assert(start + link.hash + empty =~= start + link.hash);
    law_hash_placeholder(start, empty, link);
}

/// A text that is already there can be left out of a list.
proof fn lemma_distinct_ignores_repetition(
    list: Seq<Seq<char>>,
    item: Seq<char>,
    more: Seq<Seq<char>>,
)
    requires
        list.contains(item),
    ensures
        distinct(list.push(item) + more) == distinct(list + more),
    decreases more.len(),
{
    if more.len() == 0 {
        law_distinct_holds_each_once(list);
        assert(list.push(item) + more =~= list.push(item));
        assert(list + more =~= list);
        assert(list.push(item).drop_last() =~= list);
        assert(distinct(list).contains(item) <==> item.len() > 0);
    } else {
        let init = more.drop_last();
        lemma_distinct_ignores_repetition(list, item, init);
        assert((list.push(item) + more).drop_last() =~= list.push(item) + init);
        assert((list + more).drop_last() =~= list + init);
    }
}

/// A gateway that is itself a source of the link adds no candidate.
pub proof fn law_own_sources_add_nothing(
    link: LinkModel,
    before: Seq<Seq<char>>,
    template: Seq<char>,
    after: Seq<Seq<char>>,
)
    requires
        is_own_source(template, link),
        before.len() + after.len() > 0,
    ensures
        candidates(link, before.push(template) + after) == candidates(link, before + after),
{
    let address = address_at(template, link);
    let list = link.sources + all_addresses(before, link);
    let more = all_addresses(after, link);
    let k = choose|k: int| 0 <= k < link.sources.len() && link.sources[k] == address;
    assert(list[k] == address);
    lemma_distinct_ignores_repetition(list, address, more);
    assert(link.sources + all_addresses(before.push(template) + after, link) =~= list.push(address)
        + more);
    assert(link.sources + all_addresses(before + after, link) =~= list + more);
}

/// A placeholder between two texts occurs.
proof fn lemma_mark_occurs(before: Seq<char>, mark: Seq<char>, after: Seq<char>)
    ensures
        text::occurs(before + mark + after, mark),
{
    let all = before + mark + after;
    assert(all.subrange(before.len() as int, (before.len() + mark.len()) as int) =~= mark);
    assert(text::occurrence(all, before.len() as int, mark));
}

/// The placeholder for the hash gives way to the hash, where it is the only one, also after the
/// hash is filled in.
pub proof fn law_hash_placeholder(before: Seq<char>, after: Seq<char>, link: LinkModel)
    requires
        text::trimmed(before + "{hash}"@ + after) == before + "{hash}"@ + after,
        !text::occurs(before, "{hash}"@),
        !text::occurs(after, "{hash}"@),
        !text::occurs(before + link.hash + after, "{name}"@),
        !text::occurs(before + link.hash + after, "{size}"@),
    ensures
        rendered(before + "{hash}"@ + after, link) == before + link.hash + after,
{
    let done = before + link.hash + after;
    lemma_braces();
    lemma_mark_occurs(before, "{hash}"@, after);
    text::law_replacing_once(before, "{hash}"@, after, link.hash);
    text::law_replacing_nothing(done, "{name}"@, link.name);
    text::law_replacing_nothing(done, "{size}"@, number::decimal(link.size as nat));
}

/// The placeholder for the name gives way to the name, where it is the only one, also after the name
/// is filled in.
pub proof fn law_name_placeholder(before: Seq<char>, after: Seq<char>, link: LinkModel)
    requires
        text::trimmed(before + "{name}"@ + after) == before + "{name}"@ + after,
        !text::occurs(before + "{name}"@ + after, "{hash}"@),
        !text::occurs(before, "{name}"@),
        !text::occurs(after, "{name}"@),
        !text::occurs(before + link.name + after, "{size}"@),
    ensures
        rendered(before + "{name}"@ + after, link) == before + link.name + after,
{
    let template = before + "{name}"@ + after;
    let done = before + link.name + after;
    lemma_braces();
    lemma_mark_occurs(before, "{name}"@, after);
    text::law_replacing_nothing(template, "{hash}"@, link.hash);
    text::law_replacing_once(before, "{name}"@, after, link.name);
    text::law_replacing_nothing(done, "{size}"@, number::decimal(link.size as nat));
}

/// The placeholder for the size gives way to the size, where it is the only one.
pub proof fn law_size_placeholder(before: Seq<char>, after: Seq<char>, link: LinkModel)
    requires
        text::trimmed(before + "{size}"@ + after) == before + "{size}"@ + after,
        !text::occurs(before + "{size}"@ + after, "{hash}"@),
        !text::occurs(before + "{size}"@ + after, "{name}"@),
        !text::occurs(before, "{size}"@),
        !text::occurs(after, "{size}"@),
    ensures
        rendered(before + "{size}"@ + after, link) == before + number::decimal(link.size as nat)
            + after,
{
    let template = before + "{size}"@ + after;
    lemma_braces();
    lemma_mark_occurs(before, "{size}"@, after);
    text::law_replacing_nothing(template, "{hash}"@, link.hash);
    text::law_replacing_nothing(template, "{name}"@, link.name);
    text::law_replacing_once(before, "{size}"@, after, number::decimal(link.size as nat));
}

/// Where no gateway is itself a source of the link, the candidates are the sources and then the
/// address at each gateway, in order, as far as they are not empty, each where it occurs first.
pub proof fn law_candidates_are_sources_then_gateways(link: LinkModel, configured: Seq<Seq<char>>)
    requires
        configured.len() > 0,
        forall|i: int| 0 <= i < configured.len() ==> !link.sources.contains(#[trigger] configured[i]),
    ensures
        candidates(link, configured) == distinct(
            link.sources + configured.map_values(|template: Seq<char>| rendered(template, link)),
        ),
{
    assert(all_addresses(configured, link) =~= configured.map_values(
        |template: Seq<char>| rendered(template, link),
    ));
}

/// A template holds a placeholder exactly if one of the three stands between two texts in it.
pub proof fn law_placeholders(template: Seq<char>)
    ensures
        has_placeholder(template) <==> {
            ||| exists|before: Seq<char>, after: Seq<char>|
                template == #[trigger] (before + "{hash}"@ + after)
            ||| exists|before: Seq<char>, after: Seq<char>|
                template == #[trigger] (before + "{name}"@ + after)
            ||| exists|before: Seq<char>, after: Seq<char>|
                template == #[trigger] (before + "{size}"@ + after)
        },
{
    text::law_occurs(template, "{hash}"@);
    text::law_occurs(template, "{name}"@);
    text::law_occurs(template, "{size}"@);
}

/// A part of a template: a plain text or a placeholder.
pub enum Piece {
    Plain(Seq<char>),
    Hash,
    Name,
    Size,
}

impl Piece {
    /// How the part is written.
    pub open spec fn written(self) -> Seq<char> {
        match self {
            Piece::Plain(plain) => plain,
            Piece::Hash => "{hash}"@,
            Piece::Name => "{name}"@,
            Piece::Size => "{size}"@,
        }
    }

    /// What stands for the part in the address of the file of `link`.
    pub open spec fn meaning(self, link: LinkModel) -> Seq<char> {
        match self {
            Piece::Plain(plain) => plain,
            Piece::Hash => link.hash,
            Piece::Name => link.name,
            Piece::Size => number::decimal(link.size as nat),
        }
    }
}

/// The template that is made of these parts.
pub open spec fn template_of(pieces: Seq<Piece>) -> Seq<char>
    decreases pieces.len(),
{
    if pieces.len() == 0 {
        Seq::empty()
    } else {
        pieces[0].written() + template_of(pieces.drop_first())
    }
}

/// These parts with their meanings put in, one after the other.
pub open spec fn address_of(pieces: Seq<Piece>, link: LinkModel) -> Seq<char>
    decreases pieces.len(),
{
    if pieces.len() == 0 {
        Seq::empty()
    } else {
        pieces[0].meaning(link) + address_of(pieces.drop_first(), link)
    }
}

/// No plain text among the parts has an opening brace.
pub open spec fn plain_without_braces(pieces: Seq<Piece>) -> bool {
    forall|i: int|
        0 <= i < pieces.len() && (#[trigger] pieces[i]) is Plain
            ==> !pieces[i]->Plain_0.contains('{')
}

/// The parts with a plain text in place of one placeholder.
spec fn with_value(pieces: Seq<Piece>, mark: Piece, value: Seq<char>) -> Seq<Piece> {
    pieces.map_values(
        |piece: Piece|
            if piece == mark {
                Piece::Plain(value)
            } else {
                piece
            },
    )
}

/// The three placeholders are of one length and differ.
proof fn lemma_marks_differ()
    ensures
        "{hash}"@.len() == 6,
        "{name}"@.len() == 6,
        "{size}"@.len() == 6,
        "{hash}"@[1] == 'h',
        "{name}"@[1] == 'n',
        "{size}"@[1] == 's',
{
    reveal_strlit("{hash}");
    reveal_strlit("{name}");
    reveal_strlit("{size}");
}

/// No placeholder starts in a part that is not this placeholder.
proof fn lemma_part_is_passed(piece: Piece, rest: Seq<char>, mark: Piece)
    requires
        piece is Plain ==> !piece->Plain_0.contains('{'),
        !(mark is Plain),
        piece != mark,
    ensures
        forall|i: int|
            0 <= i < piece.written().len() ==> !#[trigger] text::occurrence(
                piece.written() + rest,
                i,
                mark.written(),
            ),
{
    let start = piece.written();
    let all = start + rest;
    lemma_braces();
    lemma_marks_differ();
    assert forall|i: int| 0 <= i < start.len() implies !text::occurrence(all, i, mark.written()) by {
        if text::occurrence(all, i, mark.written()) {
            assert(all.subrange(i, i + 6) == mark.written());
            assert(all.subrange(i, i + 6)[0] == all[i]);
            assert(all.subrange(i, i + 6)[1] == all[i + 1]);
            assert(start[i] == '{');
            if piece is Plain {
                assert(start.contains('{'));
            } else if i > 0 {
                assert(start.skip(1)[i - 1] == '{');
            }
        }
    }
}

/// Replacing a placeholder puts the value in its places, and in no other.
proof fn lemma_one_value(pieces: Seq<Piece>, mark: Piece, value: Seq<char>)
    requires
        plain_without_braces(pieces),
        !(mark is Plain),
    ensures
        text::replaced(template_of(pieces), mark.written(), value) == template_of(
            with_value(pieces, mark, value),
        ),
    decreases pieces.len(),
{
    lemma_marks_differ();
    let done = with_value(pieces, mark, value);
    if pieces.len() > 0 {
        let rest = template_of(pieces.drop_first());
        let tail = pieces.drop_first();
        assert forall|i: int| 0 <= i < tail.len() && (
        #[trigger] tail[i]) is Plain implies !tail[i]->Plain_0.contains('{') by {
            assert(tail[i] == pieces[i + 1]);
        }
        lemma_one_value(tail, mark, value);
        assert(done.drop_first() =~= with_value(tail, mark, value));
        if pieces[0] == mark {
            let all = mark.written() + rest;
            assert(all.subrange(0, mark.written().len() as int) =~= mark.written());
            assert(all.skip(mark.written().len() as int) =~= rest);
        } else {
            assert(pieces[0] is Plain ==> !pieces[0]->Plain_0.contains('{'));
            lemma_part_is_passed(pieces[0], rest, mark);
            text::lemma_replaced_passes(pieces[0].written(), rest, mark.written(), value);
        }
    } else {
        assert(template_of(pieces) =~= Seq::<char>::empty());
    }
}

/// A value without opening braces keeps plain texts without them.
proof fn lemma_values_without_braces(pieces: Seq<Piece>, mark: Piece, value: Seq<char>)
    requires
        plain_without_braces(pieces),
        !value.contains('{'),
    ensures
        plain_without_braces(with_value(pieces, mark, value)),
{
    let done = with_value(pieces, mark, value);
    assert forall|i: int| 0 <= i < done.len() && (
    #[trigger] done[i]) is Plain implies !done[i]->Plain_0.contains('{') by {
        assert(pieces[i] is Plain ==> !pieces[i]->Plain_0.contains('{'));
    }
}

/// With all values put in, the parts are the address.
proof fn lemma_all_values(pieces: Seq<Piece>, link: LinkModel)
    ensures
        template_of(
            with_value(
                with_value(with_value(pieces, Piece::Hash, link.hash), Piece::Name, link.name),
                Piece::Size,
                number::decimal(link.size as nat),
            ),
        ) == address_of(pieces, link),
    decreases pieces.len(),
{
    let hashed = with_value(pieces, Piece::Hash, link.hash);
    let named = with_value(hashed, Piece::Name, link.name);
    let done = with_value(named, Piece::Size, number::decimal(link.size as nat));
    if pieces.len() > 0 {
        let tail = pieces.drop_first();
        lemma_all_values(tail, link);
        assert(hashed.drop_first() =~= with_value(tail, Piece::Hash, link.hash));
        assert(named.drop_first() =~= with_value(hashed.drop_first(), Piece::Name, link.name));
        assert(done.drop_first() =~= with_value(
            named.drop_first(),
            Piece::Size,
            number::decimal(link.size as nat),
        ));
    }
}

/// A placeholder among the parts occurs in the template.
proof fn lemma_part_occurs(pieces: Seq<Piece>, i: int)
    requires
        0 <= i < pieces.len(),
    ensures
        text::occurs(template_of(pieces), pieces[i].written()),
    decreases i,
{
    let mark = pieces[i].written();
    let start = pieces[0].written();
    let rest = template_of(pieces.drop_first());
    if i == 0 {
        assert(Seq::<char>::empty() + start + rest =~= start + rest);
        lemma_mark_occurs(Seq::empty(), start, rest);
    } else {
        lemma_part_occurs(pieces.drop_first(), i - 1);
        text::law_occurs(rest, mark);
        let (before, after) = choose|before: Seq<char>, after: Seq<char>|
            rest == #[trigger] (before + mark + after);
        assert(start + rest =~= (start + before) + mark + after);
        lemma_mark_occurs(start + before, mark, after);
    }
}

/// An address of values without opening braces has none.
proof fn lemma_address_without_braces(pieces: Seq<Piece>, link: LinkModel)
    requires
        plain_without_braces(pieces),
        !link.hash.contains('{'),
        !link.name.contains('{'),
    ensures
        !address_of(pieces, link).contains('{'),
    decreases pieces.len(),
{
    if pieces.len() > 0 {
        let tail = pieces.drop_first();
        let first = pieces[0].meaning(link);
        let rest = address_of(tail, link);
        let size = number::decimal(link.size as nat);
        number::lemma_decimal_value(link.size as nat);
        assert forall|i: int| 0 <= i < size.len() implies #[trigger] size[i] != '{' by {
            assert(number::is_digit(size[i]));
        }
        assert forall|i: int| 0 <= i < tail.len() && (
        #[trigger] tail[i]) is Plain implies !tail[i]->Plain_0.contains('{') by {
            assert(tail[i] == pieces[i + 1]);
        }
        lemma_address_without_braces(tail, link);
        assert(pieces[0] is Plain ==> !pieces[0]->Plain_0.contains('{'));
        assert(!first.contains('{'));
        assert forall|i: int| 0 <= i < (first + rest).len() implies (#[trigger] (first + rest)[i])
            != '{' by {
            if i < first.len() {
                assert(first.contains(first[i]));
            } else {
                assert(rest.contains(rest[i - first.len()]));
            }
        }
    }
}

/// Every placeholder gives way to its value, however many there are, in whichever order and between
/// whichever texts, as long as neither these nor the hash and the name have an opening brace.
pub proof fn law_all_placeholders_are_filled(pieces: Seq<Piece>, link: LinkModel)
    requires
        plain_without_braces(pieces),
        exists|i: int| 0 <= i < pieces.len() && !(#[trigger] pieces[i] is Plain),
        !link.hash.contains('{'),
        !link.name.contains('{'),
        !text::is_white_space(template_of(pieces)[0]),
        !text::is_white_space(template_of(pieces).last()),
    ensures
        rendered(template_of(pieces), link) == address_of(pieces, link),
        !rendered(template_of(pieces), link).contains('{'),
{
    let template = template_of(pieces);
    let hashed = with_value(pieces, Piece::Hash, link.hash);
    let named = with_value(hashed, Piece::Name, link.name);
    let size = number::decimal(link.size as nat);
    let i = choose|i: int| 0 <= i < pieces.len() && !(#[trigger] pieces[i] is Plain);
    lemma_marks_differ();
    lemma_part_occurs(pieces, i);
    text::law_occurs(template, pieces[i].written());
    text::lemma_trimmed_stays(template);
    lemma_one_value(pieces, Piece::Hash, link.hash);
    lemma_values_without_braces(pieces, Piece::Hash, link.hash);
    lemma_one_value(hashed, Piece::Name, link.name);
    lemma_values_without_braces(hashed, Piece::Name, link.name);
    lemma_one_value(named, Piece::Size, size);
    lemma_all_values(pieces, link);
    lemma_address_without_braces(pieces, link);
}

/// Placeholders are filled in one after the other: the hash, then the name, then the size. A value
/// can so bring in placeholders that are filled in later.
pub proof fn law_filling_order(template: Seq<char>, link: LinkModel)
    requires
        template.len() > 0,
        !text::is_white_space(template[0]),
        !text::is_white_space(template.last()),
        has_placeholder(template),
    ensures
        rendered(template, link) == text::replaced(
            text::replaced(
                text::replaced(template, "{hash}"@, link.hash),
                "{name}"@,
                link.name,
            ),
            "{size}"@,
            number::decimal(link.size as nat),
        ),
{
    text::lemma_trimmed_stays(template);
}

/// A gateway of nothing but white space has no address.
pub proof fn law_blank_template(blank: Seq<char>, link: LinkModel)
    requires
        forall|i: int| 0 <= i < blank.len() ==> text::is_white_space(#[trigger] blank[i]),
    ensures
        rendered(blank, link) == Seq::<char>::empty(),
{
    let empty = Seq::<char>::empty();
    text::law_trimming(blank, empty, empty);
    assert(blank + empty + empty =~= blank);
}

/// A gateway without placeholders serves below `/hash`: without the slashes at its end, its address
/// is followed by `/hash/` and the hash, or by `/` and the hash if it already ends with `/hash`.
pub proof fn law_gateway_without_placeholders(base: Seq<char>, slashes: Seq<char>, link: LinkModel)
    requires
        base.len() + slashes.len() > 0,
        base.len() > 0 ==> base.last() != '/' && !text::is_white_space(base[0]),
        slashes.len() == 0 ==> !text::is_white_space(base.last()),
        forall|i: int| 0 <= i < slashes.len() ==> #[trigger] slashes[i] == '/',
        !has_placeholder(base),
    ensures
        (exists|start: Seq<char>| base == #[trigger] (start + "/hash"@)) ==> rendered(
            base + slashes,
            link,
        ) == base + "/"@ + link.hash,
        !(exists|start: Seq<char>| base == #[trigger] (start + "/hash"@)) ==> rendered(
            base + slashes,
            link,
        ) == base + "/hash/"@ + link.hash,
{
    let all = base + slashes;
    let served = "/hash"@;
    lemma_no_placeholder_added(base, slashes);
    if slashes.len() > 0 {
        assert(all.last() == slashes[slashes.len() - 1]);
        assert(!text::is_white_space('/'));
    }
    if base.len() == 0 {
        assert(all[0] == slashes[0]);
    }
    text::lemma_trimmed_stays(all);
    text::lemma_trimmed_end_skips(base, slashes, |c: char| c == '/');
    if served.is_suffix_of(base) {
        let start = base.take(base.len() - served.len());
        assert(base =~= start + served);
    }
    if exists|start: Seq<char>| base == #[trigger] (start + served) {
        let start = choose|start: Seq<char>| base == #[trigger] (start + served);
        assert(base.subrange(base.len() - served.len(), base.len() as int) =~= served);
    }
}

/// The candidates are the sources of the link and then, in order, the address at each gateway, or the
/// gateway itself where it is one of the sources and has no placeholder; as far as they are not empty,
/// each where it occurs first. Without configured gateways the default one is used.
pub proof fn law_all_candidates(link: LinkModel, configured: Seq<Seq<char>>)
    ensures
        configured.len() > 0 ==> candidates(link, configured) == distinct(
            link.sources + Seq::new(
                configured.len(),
                |i: int|
                    if link.sources.contains(configured[i]) && !has_placeholder(configured[i]) {
                        configured[i]
                    } else {
                        rendered(configured[i], link)
                    },
            ),
        ),
        candidates(link, Seq::empty()) == candidates(
            link,
            seq!["https://ed2k.lyoko.io/hash/{hash}"@],
        ),
{
    let addresses = Seq::new(
        configured.len(),
        |i: int|
            if link.sources.contains(configured[i]) && !has_placeholder(configured[i]) {
                configured[i]
            } else {
                rendered(configured[i], link)
            },
    );
    assert(all_addresses(configured, link) =~= addresses);
}

/// Every source of a link that is not empty is tried, and the first source is tried first.
pub proof fn law_sources_are_tried(link: LinkModel, configured: Seq<Seq<char>>)
    ensures
        forall|i: int|
            0 <= i < link.sources.len() && (#[trigger] link.sources[i]).len() > 0 ==> candidates(
                link,
                configured,
            ).contains(link.sources[i]),
        link.sources.len() > 0 && link.sources[0].len() > 0 ==> candidates(
            link,
            configured,
        ).len() > 0 && candidates(link, configured)[0] == link.sources[0],
{
    let all = candidates(link, configured);
    law_candidates(link, configured);
    assert forall|i: int|
        0 <= i < link.sources.len() && (#[trigger] link.sources[i]).len() > 0 implies all.contains(
        link.sources[i],
    ) by {
        assert(link.sources.contains(link.sources[i]));
    }
    if link.sources.len() > 0 && link.sources[0].len() > 0 {
        let first = link.sources.take(1);
        let more = link.sources.skip(1) + all_addresses(effective_gateways(configured), link);
        assert(first.drop_last() =~= Seq::<Seq<char>>::empty());
        assert(distinct(first.drop_last()) =~= Seq::<Seq<char>>::empty());
        assert(distinct(first) =~= seq![link.sources[0]]);
        law_earlier_keeps_its_place(first, more);
        assert(first + more =~= link.sources + all_addresses(
            effective_gateways(configured),
            link,
        ));
        assert(all.subrange(0, 1)[0] == link.sources[0]);
    }
}

} // verus!

//! Endpoint specifications as they are written on the command line.

use crate::error::ErrorKind;
use crate::text::{chars_of, slice_text, split, split_bounds, trim, trim_bounds};
use vstd::prelude::*;

verus! {

/// One endpoint as the command line specifies it: the path of its socket and
/// the fingerprints that it allows and denies, in the order in which they
/// were written.
#[derive(Debug)]
pub struct SocketConfig {
    pub path: String,
    pub allowed_fingerprints: Vec<String>,
    pub denied_fingerprints: Vec<String>,
}

/// What a [`SocketConfig`] holds, as mathematical values.
pub struct SocketConfigModel {
    pub path: Seq<char>,
    pub allowed: Seq<Seq<char>>,
    pub denied: Seq<Seq<char>>,
}

/// The texts of a list of strings, in order.
pub open spec fn texts(list: Seq<String>) -> Seq<Seq<char>> {
    list.map_values(|s: String| s@)
}

impl View for SocketConfig {
    type V = SocketConfigModel;

    open spec fn view(&self) -> SocketConfigModel {
        SocketConfigModel {
            path: self.path@,
            allowed: texts(self.allowed_fingerprints@),
            denied: texts(self.denied_fingerprints@),
        }
    }
}

impl Clone for SocketConfig {
    fn clone(&self) -> (copy: Self)
        ensures
            copy@ == self@,
    {
        let copy = SocketConfig {
            path: self.path.clone(),
            allowed_fingerprints: copy_strings(&self.allowed_fingerprints),
            denied_fingerprints: copy_strings(&self.denied_fingerprints),
        };
        copy
    }
}

/// A copy of a list of strings.
pub fn copy_strings(list: &Vec<String>) -> (copy: Vec<String>)
    ensures
        texts(copy@) == texts(list@),
{
    let mut copy: Vec<String> = Vec::new();
    let mut i: usize = 0;
    while i < list.len()
        invariant
            i <= list@.len(),
            texts(copy@) == texts(list@.take(i as int)),
        decreases list@.len() - i,
    {
        let ghost before = copy@;
        copy.push(list[i].clone());
        proof {
            assert(copy@ =~= before.push(list@[i as int]));
            assert(list@.take(i + 1) =~= list@.take(i as int).push(list@[i as int]));
            assert(texts(copy@) =~= texts(before).push(list@[i as int]@));
            assert(texts(list@.take(i + 1)) =~= texts(list@.take(i as int)).push(
                list@[i as int]@,
            ));
        }
        i = i + 1;
    }
    assert(list@.take(i as int) =~= list@);
    copy
}

/// Whether an entry of a fingerprint list denies: it starts with a hyphen.
pub open spec fn is_denial(entry: Seq<char>) -> bool {
    entry.len() > 0 && entry[0] == '-'
}

/// The entries of a fingerprint list: its pieces between commas, each without
/// the white space around it.
pub open spec fn entries(list: Seq<char>) -> Seq<Seq<char>> {
    split(list, ',').map_values(|piece: Seq<char>| trim(piece))
}

/// The fingerprints that a list allows: its entries that do not deny.
pub open spec fn allowed_of(list: Seq<char>) -> Seq<Seq<char>> {
    entries(list).filter(|entry: Seq<char>| !is_denial(entry))
}

/// The fingerprints that a list denies: its entries that deny, each without
/// its hyphen.
pub open spec fn denied_of(list: Seq<char>) -> Seq<Seq<char>> {
    entries(list).filter(|entry: Seq<char>| is_denial(entry)).map_values(
        |entry: Seq<char>| entry.skip(1),
    )
}

/// The endpoint that a path and a fingerprint list specify.
pub open spec fn config_of(path: Seq<char>, list: Seq<char>) -> SocketConfigModel {
    SocketConfigModel { path, allowed: allowed_of(list), denied: denied_of(list) }
}

/// The endpoint that `text` specifies in the form `path:list`: the path is
/// what stands before the first colon, the list what stands after it. `None`
/// where `text` holds no colon.
pub open spec fn parsed(text: Seq<char>) -> Option<SocketConfigModel> {
    match text.index_of_first(':') {
        Some(colon) => Some(config_of(text.take(colon), text.skip(colon + 1))),
        None => None,
    }
}

/// The argument that separates the endpoints in the spaced form.
pub open spec fn separator() -> Seq<char> {
    seq!['-', '-']
}

/// The endpoints that groups of arguments specify, each group being a path
/// and a fingerprint list. Empty groups are passed over; `None` where a group
/// has one argument or more than two.
pub open spec fn group_configs(groups: Seq<Seq<Seq<char>>>) -> Option<Seq<SocketConfigModel>>
    decreases groups.len(),
{
    if groups.len() == 0 {
        Some(Seq::<SocketConfigModel>::empty())
    } else {
        let group = groups.last();
        match group_configs(groups.drop_last()) {
            Some(before) => if group.len() == 0 {
                Some(before)
            } else if group.len() == 2 {
                Some(before.push(config_of(group[0], group[1])))
            } else {
                None
            },
            None => None,
        }
    }
}

/// The endpoints that `args` specify in the spaced form: groups of a path and
/// a fingerprint list, set apart by `--`.
pub open spec fn parsed_spaced(args: Seq<Seq<char>>) -> Option<Seq<SocketConfigModel>> {
    group_configs(split(args, separator()))
}

/// The endpoints that every one of `args` specifies in the form `path:list`.
/// `None` where one of them holds no colon.
pub open spec fn parsed_each(args: Seq<Seq<char>>) -> Option<Seq<SocketConfigModel>>
    decreases args.len(),
{
    if args.len() == 0 {
        Some(Seq::<SocketConfigModel>::empty())
    } else {
        match (parsed_each(args.drop_last()), parsed(args.last())) {
            (Some(before), Some(config)) => Some(before.push(config)),
            _ => None,
        }
    }
}

/// The endpoints that the arguments of the command line specify: in the
/// spaced form where one of them is `--`, else each in the form `path:list`.
pub open spec fn parsed_args(args: Seq<Seq<char>>) -> Option<Seq<SocketConfigModel>> {
    if args.contains(separator()) {
        parsed_spaced(args)
    } else {
        parsed_each(args)
    }
}

/// The models of a list of endpoint specifications, in order.
pub open spec fn config_models(list: Seq<SocketConfig>) -> Seq<SocketConfigModel> {
    list.map_values(|c: SocketConfig| c@)
}

/// Reads the fingerprint list that `text` holds from its character `from` on.
fn parse_list(text: &str, chars: &Vec<char>, from: usize) -> (lists: (Vec<String>, Vec<String>))
    requires
        chars@ == text@,
        from <= chars@.len(),
    ensures
        texts(lists.0@) == allowed_of(text@.skip(from as int)),
        texts(lists.1@) == denied_of(text@.skip(from as int)),
{
    let ghost list = text@.skip(from as int);
    let ghost pieces = split(list, ',');
    let ghost all = entries(list);
    let ghost allows = |entry: Seq<char>| !is_denial(entry);
    let ghost denies = |entry: Seq<char>| is_denial(entry);
    let ghost bare = |entry: Seq<char>| entry.skip(1);
    let bounds: Vec<(usize, usize)> = split_bounds(chars, from, ',');
    let mut allowed: Vec<String> = Vec::new();
    let mut denied: Vec<String> = Vec::new();
    let mut i: usize = 0;
    proof {
        reveal(Seq::filter);
        assert(all.take(0).filter(allows) =~= Seq::<Seq<char>>::empty());
        assert(all.take(0).filter(denies) =~= Seq::<Seq<char>>::empty());
        assert(texts(allowed@) =~= all.take(0).filter(allows));
        assert(texts(denied@) =~= all.take(0).filter(denies).map_values(bare));
    }
    while i < bounds.len()
        invariant
            i <= bounds@.len(),
            chars@ == text@,
            list == text@.skip(from as int),
            pieces == split(list, ','),
            all == entries(list),
            allows == |entry: Seq<char>| !is_denial(entry),
            denies == |entry: Seq<char>| is_denial(entry),
            bare == |entry: Seq<char>| entry.skip(1),
            bounds@.len() == pieces.len(),
            forall|k: int|
                0 <= k < bounds@.len() ==> from <= (#[trigger] bounds@[k]).0 <= bounds@[k].1
                    <= chars@.len() && chars@.subrange(bounds@[k].0 as int, bounds@[k].1 as int)
                    == pieces[k],
            texts(allowed@) == all.take(i as int).filter(allows),
            texts(denied@) == all.take(i as int).filter(denies).map_values(bare),
        decreases bounds@.len() - i,
    {
        let ghost allowed_before = texts(allowed@);
        let ghost denied_before = texts(denied@);
        let (from_piece, to_piece): (usize, usize) = bounds[i];
        let (a, b): (usize, usize) = trim_bounds(chars, from_piece, to_piece);
        let ghost entry = chars@.subrange(a as int, b as int);
        proof {
            reveal(Seq::filter);
            assert(entry == trim(pieces[i as int]));
            assert(all[i as int] == entry);
            assert(all.take(i + 1).drop_last() =~= all.take(i as int));
            assert(all.take(i + 1).last() == entry);
        }
        if a < b && chars[a] == '-' {
            let fingerprint: String = slice_text(text, a + 1, b);
            proof {
                assert(is_denial(entry));
                assert(fingerprint@ =~= entry.skip(1));
            }
            denied.push(fingerprint);
            proof {
                assert(texts(denied@) =~= denied_before.push(entry.skip(1)));
                assert(all.take(i + 1).filter(denies) == all.take(i as int).filter(denies).push(
                    entry,
                ));
                assert(all.take(i + 1).filter(denies).map_values(bare) =~= all.take(
                    i as int,
                ).filter(denies).map_values(bare).push(entry.skip(1)));
            }
        } else {
            let fingerprint: String = slice_text(text, a, b);
            proof {
                assert(!is_denial(entry));
            }
            allowed.push(fingerprint);
            proof {
                assert(texts(allowed@) =~= allowed_before.push(entry));
            }
        }
        i = i + 1;
    }
    proof {
        assert(all.take(i as int) =~= all);
    }
    (allowed, denied)
}

impl SocketConfig {
    /// Reads an endpoint from the form `path:list`, where the list holds
    /// fingerprints between commas, and a hyphen before a fingerprint denies
    /// it. The path ends at the first colon. Fails with `ConfigInvalid` where
    /// `config_str` holds no colon.
    pub fn parse(config_str: &str) -> (r: Result<Self, ErrorKind>)
        ensures
            match parsed(config_str@) {
                Some(config) => r matches Ok(c) && c@ == config,
                None => r matches Err(e) && e == ErrorKind::ConfigInvalid,
            },
    {
        let chars: Vec<char> = chars_of(config_str);
        let mut colon: usize = 0;
        while colon < chars.len() && chars[colon] != ':'
            invariant
                colon <= chars@.len(),
                forall|k: int| 0 <= k < colon ==> chars@[k] != ':',
            decreases chars@.len() - colon,
        {
            colon = colon + 1;
        }
        proof {
            chars@.index_of_first_ensures(':');
            if colon < chars@.len() {
                assert(chars@.contains(':'));
            }
        }
        if colon == chars.len() {
            return Err(ErrorKind::ConfigInvalid);
        }
        let path: String = slice_text(config_str, 0, colon);
        let (allowed, denied): (Vec<String>, Vec<String>) = parse_list(
            config_str,
            &chars,
            colon + 1,
        );
        Ok(SocketConfig { path, allowed_fingerprints: allowed, denied_fingerprints: denied })
    }

    /// Reads the endpoints from the spaced form: groups of arguments set apart
    /// by `--`, each group a path and a fingerprint list as in
    /// [`SocketConfig::parse`]. Empty groups are passed over. Fails with
    /// `ConfigInvalid` where a group has one argument or more than two.
    pub fn parse_spaced(args: &Vec<String>) -> (r: Result<Vec<Self>, ErrorKind>)
        ensures
            match parsed_spaced(texts(args@)) {
                Some(configs) => r matches Ok(list) && config_models(list@) == configs,
                None => r matches Err(e) && e == ErrorKind::ConfigInvalid,
            },
    {
        let ghost groups = split(texts(args@), separator());
        let bounds: Vec<(usize, usize)> = group_bounds(args);
        let mut configs: Vec<SocketConfig> = Vec::new();
        let mut i: usize = 0;
        proof {
            assert(groups.take(0) =~= Seq::<Seq<Seq<char>>>::empty());
            assert(config_models(configs@) =~= Seq::<SocketConfigModel>::empty());
        }
        while i < bounds.len()
            invariant
                i <= bounds@.len(),
                groups == split(texts(args@), separator()),
                bounds@.len() == groups.len(),
                forall|k: int|
                    0 <= k < bounds@.len() ==> (#[trigger] bounds@[k]).0 <= bounds@[k].1
                        <= args@.len() && texts(args@).subrange(
                        bounds@[k].0 as int,
                        bounds@[k].1 as int,
                    ) == groups[k],
                group_configs(groups.take(i as int)) == Some(config_models(configs@)),
            decreases bounds@.len() - i,
        {
            let ghost before = config_models(configs@);
            let (start, end): (usize, usize) = bounds[i];
            proof {
                assert(groups.take(i + 1).drop_last() =~= groups.take(i as int));
                assert(groups.take(i + 1).last() == groups[i as int]);
                assert(groups[i as int].len() == end - start);
            }
            if end - start == 2 {
                let path: String = args[start].clone();
                let list: &str = args[start + 1].as_str();
                let chars: Vec<char> = chars_of(list);
                let (allowed, denied): (Vec<String>, Vec<String>) = parse_list(list, &chars, 0);
                let config = SocketConfig {
                    path,
                    allowed_fingerprints: allowed,
                    denied_fingerprints: denied,
                };
                proof {
                    assert(list@.skip(0) =~= list@);
                    assert(groups[i as int][0] == args@[start as int]@);
                    assert(groups[i as int][1] == args@[start + 1]@);
                    assert(config@ == config_of(groups[i as int][0], groups[i as int][1]));
                    assert(config_models(configs@.push(config)) =~= before.push(config@));
                }
                configs.push(config);
            } else if end - start != 0 {
                proof {
                    lemma_group_configs_none(groups, i + 1);
                }
                return Err(ErrorKind::ConfigInvalid);
            }
            i = i + 1;
        }
        proof {
            assert(groups.take(i as int) =~= groups);
        }
        Ok(configs)
    }

    /// Reads the endpoints from the arguments of the command line: in the
    /// spaced form where one of them is `--`, else each of them in the form
    /// `path:list`. Fails with `ConfigInvalid` where the form is not kept.
    pub fn parse_args(args: &Vec<String>) -> (r: Result<Vec<Self>, ErrorKind>)
        ensures
            match parsed_args(texts(args@)) {
                Some(configs) => r matches Ok(list) && config_models(list@) == configs,
                None => r matches Err(e) && e == ErrorKind::ConfigInvalid,
            },
    {
        let dashes: String = String::from_str("--");
        proof {
            reveal_strlit("--");
            assert(dashes@ =~= separator());
        }
        let mut j: usize = 0;
        while j < args.len()
            invariant
                j <= args@.len(),
                dashes@ == separator(),
                forall|k: int| 0 <= k < j ==> texts(args@)[k] != separator(),
            decreases args@.len() - j,
        {
            if args[j] == dashes {
                assert(texts(args@)[j as int] == separator());
                return Self::parse_spaced(args);
            }
            j = j + 1;
        }
        let mut configs: Vec<SocketConfig> = Vec::new();
        let mut i: usize = 0;
        proof {
            assert(texts(args@).take(0) =~= Seq::<Seq<char>>::empty());
            assert(config_models(configs@) =~= Seq::<SocketConfigModel>::empty());
        }
        while i < args.len()
            invariant
                i <= args@.len(),
                !texts(args@).contains(separator()),
                parsed_each(texts(args@).take(i as int)) == Some(config_models(configs@)),
            decreases args@.len() - i,
        {
            let ghost before = config_models(configs@);
            proof {
                assert(texts(args@).take(i + 1).drop_last() =~= texts(args@).take(i as int));
                assert(texts(args@).take(i + 1).last() == args@[i as int]@);
            }
            match Self::parse(args[i].as_str()) {
                Ok(config) => {
                    proof {
                        assert(config_models(configs@.push(config)) =~= before.push(config@));
                    }
                    configs.push(config);
                },
                Err(_) => {
                    proof {
                        lemma_parsed_each_none(texts(args@), i + 1);
                    }
                    return Err(ErrorKind::ConfigInvalid);
                },
            }
            i = i + 1;
        }
        proof {
            assert(texts(args@).take(i as int) =~= texts(args@));
        }
        Ok(configs)
    }
}

/// Groups that fail up to some point fail as a whole.
proof fn lemma_group_configs_none(groups: Seq<Seq<Seq<char>>>, n: int)
    requires
        0 <= n <= groups.len(),
        group_configs(groups.take(n)) is None,
    ensures
        group_configs(groups) is None,
    decreases groups.len() - n,
{
    if n == groups.len() {
        assert(groups.take(n) =~= groups);
    } else {
        assert(groups.take(n + 1).drop_last() =~= groups.take(n));
        lemma_group_configs_none(groups, n + 1);
    }
}

/// Arguments that fail up to some point fail as a whole.
proof fn lemma_parsed_each_none(args: Seq<Seq<char>>, n: int)
    requires
        0 <= n <= args.len(),
        parsed_each(args.take(n)) is None,
    ensures
        parsed_each(args) is None,
    decreases args.len() - n,
{
    if n == args.len() {
        assert(args.take(n) =~= args);
    } else {
        assert(args.take(n + 1).drop_last() =~= args.take(n));
        lemma_parsed_each_none(args, n + 1);
    }
}

/// Where the groups of `args` begin and end, split at the arguments that are
/// `--`.
fn group_bounds(args: &Vec<String>) -> (bounds: Vec<(usize, usize)>)
    ensures
        bounds@.len() == split(texts(args@), separator()).len(),
        forall|k: int|
            0 <= k < bounds@.len() ==> (#[trigger] bounds@[k]).0 <= bounds@[k].1 <= args@.len()
                && texts(args@).subrange(bounds@[k].0 as int, bounds@[k].1 as int) == split(
                texts(args@),
                separator(),
            )[k],
{
    let ghost all = texts(args@);
    let dashes: String = String::from_str("--");
    proof {
        reveal_strlit("--");
        assert(dashes@ =~= separator());
    }
    let mut bounds: Vec<(usize, usize)> = Vec::new();
    let mut start: usize = 0;
    let mut j: usize = 0;
    proof {
        assert(all.take(0) =~= Seq::<Seq<char>>::empty());
        assert(all.subrange(0, 0) =~= Seq::<Seq<char>>::empty());
    }
    while j < args.len()
        invariant
            start <= j <= args@.len(),
            all == texts(args@),
            dashes@ == separator(),
            split(all.take(j as int), separator()).len() == bounds@.len() + 1,
            split(all.take(j as int), separator())[bounds@.len() as int] == all.subrange(
                start as int,
                j as int,
            ),
            forall|k: int|
                0 <= k < bounds@.len() ==> (#[trigger] bounds@[k]).0 <= bounds@[k].1
                    <= args@.len() && all.subrange(bounds@[k].0 as int, bounds@[k].1 as int)
                    == split(all.take(j as int), separator())[k],
        decreases args@.len() - j,
    {
        proof {
            assert(all.take(j + 1).drop_last() =~= all.take(j as int));
            assert(all.take(j + 1).last() == args@[j as int]@);
        }
        if args[j] == dashes {
            bounds.push((start, j));
            start = j + 1;
            proof {
                assert(all.subrange(start as int, start as int) =~= Seq::<Seq<char>>::empty());
            }
        } else {
            proof {
                assert(all.subrange(start as int, j + 1) =~= all.subrange(
                    start as int,
                    j as int,
                ).push(all[j as int]));
            }
        }
        j = j + 1;
    }
    proof {
        assert(all.take(j as int) =~= all);
    }
    bounds.push((start, j));
    bounds
}

} // verus!

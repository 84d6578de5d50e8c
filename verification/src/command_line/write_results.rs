//! Writes the final report of a run.
use crate::command_line::options::{OutputOptions, Separator};
use crate::command_line::record_writer::{record_bytes, records_bytes, texts, RecordWriter};
use crate::command_line::statistics::{sizes_of, statistics_for, statistics_text};
use crate::grouped_collections::grouped_collection::{listed, lists, GroupedCollection};
use crate::grouped_collections::key::GroupKey;
use crate::grouped_collections::sorted_map::SortedMap;
use crate::text::{decimal, decimal_text, lossy_text, utf8_lossy};
use vstd::prelude::*;
use vstd::string::*;
use vstd::utf8::encode_utf8;

verus! {

broadcast use vstd::string::group_string_axioms;

/// The options with which the outputs of commands are reported: those of
/// `base` for parallel runs, headers and statistics, and else the defaults.
pub open spec fn default_options(base: OutputOptions) -> OutputOptions {
    OutputOptions {
        separator: Separator::Line,
        only_group_names: false,
        run_command: None,
        parallel: base.parallel,
        headers: base.headers,
        stats: base.stats,
    }
}

/// Returns the options with which the outputs of commands are reported: the
/// separator is the line feed, groups are written with their contents, and no
/// command is run. What `base` says of parallel runs, headers and statistics
/// is kept.
pub fn default_output_options(base: &OutputOptions) -> (options: OutputOptions)
    ensures
        options == default_options(*base),
{
    OutputOptions {
        separator: Separator::Line,
        only_group_names: false,
        run_command: None,
        parallel: base.parallel,
        headers: base.headers,
        stats: base.stats,
    }
}

/// The number of items of a group in words: `1 item`, or the number and
/// `items`.
pub open spec fn item_count_text(n: nat) -> Seq<char> {
    if n == 1 {
        "1 item"@
    } else {
        decimal(n) + " items"@
    }
}

/// Says how many items a vector holds, like `1 item` or `48 items`.
pub fn item_count<T>(items: &Vec<T>) -> (s: String)
    ensures
        s@ == item_count_text(items@.len()),
{
    if items.len() == 1 {
        "1 item".to_string()
    } else {
        let mut s = decimal_text(items.len());
        s.append(" items");
        s
    }
}

/// The line that stands for a group: its key, with a colon where the contents
/// of the group follow, and with the number of its items where statistics are
/// asked for.
pub open spec fn header_text(key: Seq<char>, size: nat, options: OutputOptions) -> Seq<char> {
    if options.only_group_names {
        if options.stats {
            key + " ("@ + item_count_text(size) + ")"@
        } else {
            key
        }
    } else if options.stats {
        key + ": ("@ + item_count_text(size) + ")"@
    } else {
        key + ":"@
    }
}

/// What is written for one group: its header, and then the output of its
/// command where there is one, else its values; or the header alone where
/// only the names of the groups are asked for. The header is left out where
/// the contents are written and no headers are asked for.
pub open spec fn group_bytes(
    key: Seq<char>,
    values: Seq<String>,
    result: Option<Seq<u8>>,
    options: OutputOptions,
    sep: Seq<u8>,
) -> Seq<u8> {
    let header = record_bytes(header_text(key, values.len(), options), sep);
    if options.only_group_names {
        header
    } else {
        let body = match result {
            Some(bytes) => record_bytes(utf8_lossy(bytes), sep),
            None => records_bytes(texts(values), sep),
        };
        if options.headers {
            header + body
        } else {
            body
        }
    }
}

/// The output of the command of a group, where commands were run.
pub open spec fn result_of(results: Option<Map<Seq<char>, Vec<u8>>>, key: Seq<char>) -> Option<
    Seq<u8>,
> {
    match results {
        Some(r) => Some(r[key]@),
        None => None,
    }
}

/// What is written for the groups of a listing, one after the other.
pub open spec fn groups_bytes(
    listing: Seq<(Seq<char>, Seq<String>)>,
    results: Option<Map<Seq<char>, Vec<u8>>>,
    options: OutputOptions,
    sep: Seq<u8>,
) -> Seq<u8>
    decreases listing.len(),
{
    if listing.len() == 0 {
        Seq::empty()
    } else {
        groups_bytes(listing.drop_last(), results, options, sep) + group_bytes(
            listing.last().0,
            listing.last().1,
            result_of(results, listing.last().0),
            options,
            sep,
        )
    }
}

/// The options that the report is written with: the default options where
/// commands were run, else the options as they are.
pub open spec fn effective(options: OutputOptions, with_results: bool) -> OutputOptions {
    if with_results {
        default_options(options)
    } else {
        options
    }
}

/// The final report: what is written for each group, in the order of the
/// listing; then, where statistics are asked for, an empty record and the
/// figures on the groups.
pub open spec fn report_bytes(
    listing: Seq<(Seq<char>, Seq<String>)>,
    results: Option<Map<Seq<char>, Vec<u8>>>,
    options: OutputOptions,
) -> Seq<u8> {
    let used = effective(options, results is Some);
    let sep = encode_utf8(used.separator.spec_sep());
    groups_bytes(listing, results, used, sep) + if used.stats {
        record_bytes(Seq::empty(), sep) + record_bytes(statistics_text(sizes_of(listing)), sep)
    } else {
        Seq::empty()
    }
}

/// The outputs of the commands by key, where commands were run.
pub open spec fn outputs(results: Option<SortedMap<String, Vec<u8>>>) -> Option<
    Map<Seq<char>, Vec<u8>>,
> {
    match results {
        Some(r) => Some(r.entries()),
        None => None,
    }
}

/// Writes the line that stands for a group.
fn write_header(writer: &mut RecordWriter, key: &String, values: &Vec<String>, options: &OutputOptions)
    ensures
        final(writer).writer@ == old(writer).writer@ + record_bytes(
            header_text(key@, values@.len(), *options),
            old(writer).separator@,
        ),
        final(writer).separator == old(writer).separator,
{
    if options.only_group_names && !options.stats {
        writer.write(key.as_str());
    } else {
        let mut header = key.clone();
        if options.stats {
            if options.only_group_names {
                header.append(" (");
            } else {
                header.append(": (");
            }
            header.append(item_count(values).as_str());
            header.append(")");
        } else {
            header.append(":");
        }
        assert(header@ =~= header_text(key@, values@.len(), *options));
        writer.write(header.as_str());
    }
}

/// Writes the final report of a run to the end of `output`.
///
/// Where `results` holds the outputs of commands, the output of the command
/// of each group is written in place of the contents of the group, with the
/// default options (see [`default_output_options`]). Else the groups are
/// written as `options` says: their names alone, or each group with its
/// contents; each header and each value is followed by the separator. The
/// groups are written in the order in which `map` yields them. Where
/// statistics are asked for, the header of each group holds the number of its
/// items, and the figures on the groups follow the groups.
///
/// `results`, where it is there, must have an output for each group of `map`.
pub fn write_results<M: GroupedCollection<String, String>>(
    output: &mut Vec<u8>,
    map: &M,
    results: &Option<SortedMap<String, Vec<u8>>>,
    options: &OutputOptions,
)
    requires
        results matches Some(r) ==> forall|k: Seq<char>| #[trigger]
            map.groups().contains_key(k) ==> r.entries().contains_key(k),
    ensures
        final(output)@ == old(output)@ + report_bytes(map.listing(), outputs(*results), *options),
{
    let default_options = default_output_options(options);
    let used = match results {
        Some(_) => &default_options,
        None => options,
    };
    let separator = used.separator.sep();
    let mut buffer: Vec<u8> = Vec::new();
    std::mem::swap(output, &mut buffer);
    let mut writer = RecordWriter::new(buffer, separator.as_str().as_bytes());
    let ghost sep = writer.separator@;
    let ghost found = outputs(*results);
    let pairs = map.iter();
    let ghost listing = map.listing();
    let mut i: usize = 0;
    assert(listing.take(0) =~= Seq::<(Seq<char>, Seq<String>)>::empty());
    assert(writer.writer@ =~= old(output)@ + Seq::<u8>::empty());
    while i < pairs.len()
        invariant
            i <= pairs.len(),
            listing == map.listing(),
            listed(pairs@) == listing,
            lists(listing, map.groups()),
            found == outputs(*results),
            results matches Some(r) ==> forall|k: Seq<char>| #[trigger]
                map.groups().contains_key(k) ==> r.entries().contains_key(k),
            results is Some ==> !used.only_group_names,
            writer.separator@ == sep,
            writer.writer@ == old(output)@ + groups_bytes(
                listing.take(i as int),
                found,
                *used,
                sep,
            ),
        decreases pairs.len() - i,
    {
        let (key, values) = pairs[i];
        let ghost before = writer.writer@;
        assert(listing[i as int] == (key@, values@));
        if used.only_group_names {
            write_header(&mut writer, key, values, used);
        } else {
            if used.headers {
                write_header(&mut writer, key, values, used);
            }
            match results {
                Some(r) => {
                    assert(map.groups().contains_key(listing[i as int].0));
                    match r.get(key) {
                        Some(result) => {
                            let text = lossy_text(result.as_slice());
                            writer.write(text.as_str());
                        },
                        None => {
                            assert(false);
                        },
                    }
                },
                None => {
                    writer.write_all(values.as_slice());
                },
            }
        }
        proof {
            let now = listing.take(i + 1);
            assert(now.drop_last() =~= listing.take(i as int));
            assert(now.last() == listing[i as int]);
            assert(writer.writer@ =~= before + group_bytes(
                key@,
                values@,
                result_of(found, key@),
                *used,
                sep,
            ));
            assert(writer.writer@ =~= old(output)@ + groups_bytes(now, found, *used, sep));
        }
        i += 1;
    }
    assert(listing.take(pairs.len() as int) =~= listing);
    if used.stats {
        let ghost before = writer.writer@;
        writer.write("");
        writer.write(statistics_for(map).as_str());
        proof {
            reveal_strlit("");
            assert(""@ =~= Seq::<char>::empty());
            assert(writer.writer@ =~= before + (record_bytes(Seq::empty(), sep) + record_bytes(
                statistics_text(sizes_of(listing)),
                sep,
            )));
        }
    }
    *output = writer.writer();
    assert(output@ =~= old(output)@ + report_bytes(map.listing(), outputs(*results), *options));
}

} // verus!

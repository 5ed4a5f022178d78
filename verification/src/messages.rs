//! The message catalogue: texts by key and language, and the warnings built from them.
use vstd::prelude::*;
use vstd::string::*;
use crate::table::{find_key, index_of, keys};
use crate::text::{join_strings, joined, texts};

verus! {

/// The text that the catalogue holds under `key` for `lang`; the key itself where it holds
/// none.
pub open spec fn message_text(
    catalog: Seq<(String, Vec<(String, String)>)>,
    key: Seq<char>,
    lang: Seq<char>,
) -> Seq<char> {
    match index_of(keys(catalog), key) {
        Some(i) => match index_of(keys(catalog[i].1@), lang) {
            Some(j) => catalog[i].1@[j].1@,
            None => key,
        },
        None => key,
    }
}

/// The two lines of one warning: the element, then the values in conflict.
pub open spec fn warning_text(
    element: Seq<char>,
    values: Seq<Seq<char>>,
    catalog: Seq<(String, Vec<(String, String)>)>,
    lang: Seq<char>,
) -> Seq<char> {
    "  "@ + message_text(catalog, "xml_element"@, lang) + ": "@ + element + "\n"@ + "  "@
        + message_text(catalog, "values"@, lang) + ": "@ + joined(values, ", "@)
}

/// The warnings of a list of conflicts, one after the other.
pub open spec fn warning_texts(
    conflicts: Seq<(&String, Vec<String>)>,
    catalog: Seq<(String, Vec<(String, String)>)>,
    lang: Seq<char>,
) -> Seq<Seq<char>> {
    Seq::new(
        conflicts.len(),
        |i: int| warning_text(conflicts[i].0@, texts(conflicts[i].1@), catalog, lang),
    )
}

/// Looks up the message for `msg_key` in language `lang`, and falls back to the key.
pub fn get_msg(
    msg_config: &Vec<(String, Vec<(String, String)>)>,
    msg_key: &str,
    lang: &String,
) -> (msg: String)
    ensures
        msg@ == message_text(msg_config@, msg_key@, lang@),
{
    let key = msg_key.to_owned();
    match find_key(msg_config, &key) {
        Some(i) => {
            let by_language = &msg_config[i].1;
            match find_key(by_language, lang) {
                Some(j) => by_language[j].1.clone(),
                None => key,
            }
        },
        None => key,
    }
}

/// Renders one conflict as two indented lines.
pub fn format_warning(
    inconsistent_values: (&String, Vec<String>),
    msg_config: &Vec<(String, Vec<(String, String)>)>,
    lang: &String,
) -> (warning: String)
    ensures
        warning@ == warning_text(
            inconsistent_values.0@,
            texts(inconsistent_values.1@),
            msg_config@,
            lang@,
        ),
{
    let (xml_element, conflicting_values) = inconsistent_values;
    let element_label = get_msg(msg_config, "xml_element", lang);
    let values_label = get_msg(msg_config, "values", lang);
    let values = join_strings(&conflicting_values, ", ");
    let mut warning = String::new();
    warning.append("  ");
    warning.append(element_label.as_str());
    warning.append(": ");
    warning.append(xml_element.as_str());
    warning.append("\n");
    warning.append("  ");
    warning.append(values_label.as_str());
    warning.append(": ");
    warning.append(values.as_str());
    proof {
        assert(Seq::<char>::empty() + "  "@ =~= "  "@);
    }
    warning
}

/// Renders a list of conflicts, with a rule between each two.
pub fn compile_warnings(
    inconsistencies: Vec<(&String, Vec<String>)>,
    msg_config: &Vec<(String, Vec<(String, String)>)>,
    lang: &String,
) -> (compiled: String)
    ensures
        compiled@ == joined(warning_texts(inconsistencies@, msg_config@, lang@), "\n  ---\n"@),
{
    let mut rendered: Vec<String> = Vec::new();
    let mut inconsistencies = inconsistencies;
    let ghost all = inconsistencies@;
    let mut i: usize = 0;
    while i < inconsistencies.len()
        invariant
            i <= inconsistencies.len(),
            rendered.len() == i,
            inconsistencies@.len() == all.len(),
            forall|k: int| i <= k < all.len() ==> inconsistencies@[k] == all[k],
            forall|k: int|
                0 <= k < i ==> rendered@[k]@ == warning_text(
                    all[k].0@,
                    texts(all[k].1@),
                    msg_config@,
                    lang@,
                ),
        decreases inconsistencies.len() - i,
    {
        let element: &String = inconsistencies[i].0;
        let mut values: Vec<String> = Vec::new();
        std::mem::swap(&mut values, &mut inconsistencies[i].1);
        rendered.push(format_warning((element, values), msg_config, lang));
        i += 1;
    }
    proof {
        assert(texts(rendered@) =~= warning_texts(all, msg_config@, lang@));
    }
    join_strings(&rendered, "\n  ---\n")
}

} // verus!

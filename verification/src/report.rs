//! What the tool tells its user: the variables that templates can use,
//! and what to do with the files that were generated.

use vstd::prelude::*;
use vstd::string::StringExecFns;
use crate::template_discovery::{extension_of, file_name_of, path_extension};
use crate::paths::{parent_of, parent_path};
use crate::text::{
    chars_of, decimal, find, find_text, lemma_find_from, push_decimal, slice_of, str_eq, string_of,
};
use crate::value::{Json, JsonValue};

verus! {

/// The root of a path: what stands before its first dot, or before its
/// first bracket where it has no dot, or all of it.
pub open spec fn root_key(key: Seq<char>) -> Seq<char> {
    match find(key, seq!['.']) {
        Some(dot) => key.take(dot),
        None => match find(key, seq!['[']) {
            Some(bracket) => key.take(bracket),
            None => key,
        },
    }
}

/// The root of a path.
pub fn extract_root_key(key: &str) -> (r: String)
    ensures
        r@ == root_key(key@),
{
    let chars = chars_of(key);
    let dot: Vec<char> = vec!['.'];
    let bracket: Vec<char> = vec!['['];
    assert(dot@ =~= seq!['.']);
    assert(bracket@ =~= seq!['[']);
    match find_text(&chars, &dot, 0) {
        Some(at) => {
            proof {
                lemma_find_from(chars@, dot@, 0);
            }
            let r = slice_of(&chars, 0, at);
            assert(r@ =~= key@.take(at as int));
            string_of(&r)
        },
        None => match find_text(&chars, &bracket, 0) {
            Some(at) => {
                proof {
                    lemma_find_from(chars@, bracket@, 0);
                }
                let r = slice_of(&chars, 0, at);
                assert(r@ =~= key@.take(at as int));
                string_of(&r)
            },
            None => String::from_str(key),
        },
    }
}

/// The name of the type of a value.
pub open spec fn kind_name(value: Json) -> Seq<char> {
    match value {
        Json::Null => "null"@,
        Json::Bool(_) => "boolean"@,
        Json::Number(_) => "number"@,
        Json::Text(_) => "string"@,
        Json::Array(_) => "array"@,
        Json::Object(_) => "object"@,
    }
}

/// The name of the type of a value.
pub fn get_value_type(value: &JsonValue) -> (r: &'static str)
    ensures
        r@ == kind_name(value@),
{
    match value {
        JsonValue::Null => "null",
        JsonValue::Bool(_) => "boolean",
        JsonValue::Number(_) => "number",
        JsonValue::Text(_) => "string",
        JsonValue::Array(_) => "array",
        JsonValue::Object(_) => "object",
    }
}

/// A value in short: a number or a truth value as it is, a text in
/// quotes and cut after 47 characters where it has more than 50, and for
/// a list or a mapping how much it holds.
pub open spec fn sample_of(value: Json) -> Seq<char> {
    match value {
        Json::Null => "null"@,
        Json::Bool(b) => if b {
            "true"@
        } else {
            "false"@
        },
        Json::Number(n) => n,
        Json::Text(s) => if s.len() > 50 {
            "\""@ + s.take(47) + "...\""@
        } else {
            "\""@ + s + "\""@
        },
        Json::Array(items) => "["@ + decimal(items.len()) + " element(s)]"@,
        Json::Object(members) => "{ "@ + decimal(members.len()) + (if members.len() == 1 {
            " property }"@
        } else {
            " properties }"@
        }),
    }
}

/// A value in short.
pub fn format_value_sample(value: &JsonValue) -> (r: String)
    ensures
        r@ == sample_of(value@),
{
    match value {
        JsonValue::Null => String::from_str("null"),
        JsonValue::Bool(b) => if *b {
            String::from_str("true")
        } else {
            String::from_str("false")
        },
        JsonValue::Number(n) => n.clone(),
        JsonValue::Text(s) => {
            let chars = chars_of(s.as_str());
            let mut r = String::from_str("\"");
            if chars.len() > 50 {
                let head = slice_of(&chars, 0, 47);
                assert(head@ =~= s@.take(47));
                r.append(string_of(&head).as_str());
                r.append("...\"");
            } else {
                r.append(s.as_str());
                r.append("\"");
            }
            r
        },
        JsonValue::Array(items) => {
            let mut r = String::from_str("[");
            push_decimal(&mut r, items.len());
            r.append(" element(s)]");
            r
        },
        JsonValue::Object(members) => {
            let mut r = String::from_str("{ ");
            push_decimal(&mut r, members.len());
            if members.len() == 1 {
                r.append(" property }");
            } else {
                r.append(" properties }");
            }
            r
        },
    }
}

/// Whether one of the paths has exactly the extension `extension`.
pub open spec fn any_with_extension(paths: Seq<Seq<char>>, extension: Seq<char>) -> bool {
    exists|i: int|
        0 <= i < paths.len() && extension_of(file_name_of(#[trigger] paths[i])) == Some(extension)
}

/// The directory of a file, or `.` where the file names none.
pub open spec fn directory_of(path: Seq<char>) -> Seq<char> {
    match parent_of(path) {
        Some(p) => p,
        None => "."@,
    }
}

/// The advice for Terraform files in `directory`.
pub open spec fn terraform_advice(directory: Seq<char>) -> Seq<char> {
    "\n\nFor Terraform/OpenTofu:\n  1. Review the generated files to ensure they match your requirements\n  2. Initialize Terraform:\n     cd "@
        + directory
        + "\n     terraform init\n  3. Validate the configuration:\n     terraform validate\n  4. Plan the infrastructure changes:\n     terraform plan\n  5. Apply the changes (when ready):\n     terraform apply"@
}

/// The advice for Kubernetes manifests in `directory`.
pub open spec fn kubernetes_advice(directory: Seq<char>) -> Seq<char> {
    "\n\nFor Kubernetes:\n  1. Review the generated manifests to ensure they match your requirements\n  2. Validate the manifests:\n     kubectl apply --dry-run=client -f "@
        + directory + "\n  3. Apply the manifests to your cluster:\n     kubectl apply -f "@
        + directory + "\n  4. Verify the deployment:\n     kubectl get all"@
}

/// The advice for JSON files, of which `first` is the first file written.
pub open spec fn json_advice(first: Seq<char>) -> Seq<char> {
    "\n\nFor JSON configuration files:\n  1. Review the generated files to ensure they match your requirements\n  2. Validate the JSON syntax:\n     jq . "@
        + first
        + " > /dev/null\n  3. Use the configuration files with your infrastructure tools"@
}

/// The advice that holds for every kind of file.
pub open spec fn general_advice(template_dir: Seq<char>) -> Seq<char> {
    "\n\nGeneral tips:\n  - Use version control (git) to track changes to generated files\n  - Review all generated files before applying to production\n  - Use the 'list-variables' command to see available template variables\n  - Regenerate files by running the same command with updated templates in "@
        + template_dir
}

/// What to do next with the files that were written: advice for each
/// kind of file among them, told by the extensions, with the directory of
/// the first file as the place to work in, and advice that always holds.
/// JSON files get advice of their own only where there is nothing else.
pub open spec fn guidance(written: Seq<Seq<char>>, template_dir: Seq<char>) -> Seq<char> {
    let terraform = any_with_extension(written, "tf"@);
    let kubernetes = any_with_extension(written, "yaml"@) || any_with_extension(written, "yml"@);
    let json = any_with_extension(written, "json"@);
    "Next steps:"@ + (if terraform {
        terraform_advice(directory_of(written[0]))
    } else {
        Seq::empty()
    }) + (if kubernetes {
        kubernetes_advice(directory_of(written[0]))
    } else {
        Seq::empty()
    }) + (if json && !terraform && !kubernetes {
        json_advice(written[0])
    } else {
        Seq::empty()
    }) + general_advice(template_dir)
}

/// The texts of `paths`.
pub open spec fn texts_of(paths: Seq<String>) -> Seq<Seq<char>> {
    Seq::new(paths.len(), |i: int| paths[i]@)
}

/// Whether one of the paths has exactly the extension `extension`.
pub fn has_extension(paths: &Vec<String>, extension: &str) -> (r: bool)
    ensures
        r == any_with_extension(texts_of(paths@), extension@),
{
    let mut i: usize = 0;
    while i < paths.len()
        invariant
            i <= paths.len(),
            forall|j: int|
                0 <= j < i ==> extension_of(file_name_of(#[trigger] texts_of(paths@)[j])) != Some(
                    extension@,
                ),
        decreases paths.len() - i,
    {
        let chars = chars_of(paths[i].as_str());
        if let Some(e) = path_extension(&chars) {
            if str_eq(string_of(&e).as_str(), extension) {
                assert(extension_of(file_name_of(texts_of(paths@)[i as int])) == Some(
                    extension@,
                ));
                return true;
            }
        }
        i += 1;
    }
    false
}

/// What to do next with the files that were written.
pub fn get_next_steps_guidance(written_files: &Vec<String>, template_dir: &str) -> (r: String)
    ensures
        r@ == guidance(texts_of(written_files@), template_dir@),
{
    let terraform = has_extension(written_files, "tf");
    let kubernetes = has_extension(written_files, "yaml") || has_extension(written_files, "yml");
    let json = has_extension(written_files, "json");
    let mut r = String::from_str("Next steps:");
    let ghost written = texts_of(written_files@);
    let ghost head = "Next steps:"@;
    if terraform || kubernetes || json {
        // a file with an extension is among them, so there is a first
        assert(written_files.len() > 0);
        assert(written[0] == written_files@[0]@);
    }
    if terraform {
        let directory = match parent_path(written_files[0].as_str()) {
            Some(p) => p,
            None => String::from_str("."),
        };
        r.append(
            "\n\nFor Terraform/OpenTofu:\n  1. Review the generated files to ensure they match your requirements\n  2. Initialize Terraform:\n     cd ",
        );
        r.append(directory.as_str());
        r.append(
            "\n     terraform init\n  3. Validate the configuration:\n     terraform validate\n  4. Plan the infrastructure changes:\n     terraform plan\n  5. Apply the changes (when ready):\n     terraform apply",
        );
        assert(r@ =~= head + terraform_advice(directory_of(written[0])));
    } else {
        assert(r@ =~= head + Seq::<char>::empty());
    }
    let ghost second = r@;
    if kubernetes {
        let directory = match parent_path(written_files[0].as_str()) {
            Some(p) => p,
            None => String::from_str("."),
        };
        r.append(
            "\n\nFor Kubernetes:\n  1. Review the generated manifests to ensure they match your requirements\n  2. Validate the manifests:\n     kubectl apply --dry-run=client -f ",
        );
        r.append(directory.as_str());
        r.append("\n  3. Apply the manifests to your cluster:\n     kubectl apply -f ");
        r.append(directory.as_str());
        r.append("\n  4. Verify the deployment:\n     kubectl get all");
        assert(r@ =~= second + kubernetes_advice(directory_of(written[0])));
    } else {
        assert(r@ =~= second + Seq::<char>::empty());
    }
    let ghost third = r@;
    if json && !terraform && !kubernetes {
        r.append(
            "\n\nFor JSON configuration files:\n  1. Review the generated files to ensure they match your requirements\n  2. Validate the JSON syntax:\n     jq . ",
        );
        r.append(written_files[0].as_str());
        r.append(
            " > /dev/null\n  3. Use the configuration files with your infrastructure tools",
        );
        assert(r@ =~= third + json_advice(written[0]));
    } else {
        assert(r@ =~= third + Seq::<char>::empty());
    }
    r.append(
        "\n\nGeneral tips:\n  - Use version control (git) to track changes to generated files\n  - Review all generated files before applying to production\n  - Use the 'list-variables' command to see available template variables\n  - Regenerate files by running the same command with updated templates in ",
    );
    r.append(template_dir);
    r
}

/// The lines that tell of the files that were written: how many there
/// are, the path of each, and what to do next.
pub open spec fn success_lines(written: Seq<Seq<char>>, template_dir: Seq<char>) -> Seq<Seq<char>> {
    seq![
        "\n\u{2713} Successfully generated "@ + decimal(written.len()) + " file(s) from templates"@,
        "\nGenerated files:"@,
    ] + Seq::new(written.len(), |i: int| "  \u{2713} "@ + written[i]) + seq![
        "\n"@ + guidance(written, template_dir),
    ]
}

/// The lines that tell of the files that were written.
pub fn success_report(written_files: &Vec<String>, template_dir: &str) -> (lines: Vec<String>)
    ensures
        texts_of(lines@) == success_lines(texts_of(written_files@), template_dir@),
{
    let ghost written = texts_of(written_files@);
    let mut lines: Vec<String> = Vec::new();
    let mut first = String::from_str("\n\u{2713} Successfully generated ");
    push_decimal(&mut first, written_files.len());
    first.append(" file(s) from templates");
    lines.push(first);
    lines.push(String::from_str("\nGenerated files:"));
    let mut i: usize = 0;
    while i < written_files.len()
        invariant
            i <= written_files.len(),
            written == texts_of(written_files@),
            lines.len() == i + 2,
            texts_of(lines@) == success_lines(written, template_dir@).take(i + 2),
        decreases written_files.len() - i,
    {
        lines.push(String::from_str("  \u{2713} ").concat(written_files[i].as_str()));
        proof {
            assert(texts_of(lines@) =~= success_lines(written, template_dir@).take(i + 3));
        }
        i += 1;
    }
    let ghost listed = texts_of(lines@);
    lines.push(
        String::from_str("\n").concat(get_next_steps_guidance(written_files, template_dir).as_str()),
    );
    proof {
        let all = success_lines(written, template_dir@);
        assert(all.len() == written.len() + 3);
        assert(all[written.len() as int + 2] == "\n"@ + guidance(written, template_dir@));
        assert(forall|k: int| 0 <= k < listed.len() ==> texts_of(lines@)[k] == listed[k]);
        assert(forall|k: int| 0 <= k < listed.len() ==> listed[k] == all[k]);
        assert(texts_of(lines@) =~= all);
    }
    lines
}

} // verus!

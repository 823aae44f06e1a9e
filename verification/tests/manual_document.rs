use nixdoc::{collect_entries, parse_module, render_manual, retrieve_description, Locations};

const SOURCE: &str = r#"/* String manipulation functions. */
{ lib }:
let

  inherit (builtins) length;

in

rec {

  inherit (builtins) stringLength substring;

  /* Concatenate a list of strings.

     Type: concatStrings :: [string] -> string

     Example:
       concatStrings ["foo" "bar"]
       => "foobar"
  */
  concatStrings = builtins.concatStringsSep "";

  /* Map a function over a list and concatenate the resulting strings.

     Type: concatMapStrings :: (a -> string) -> [a] -> string
  */
  concatMapStrings =
    # The function to apply
    f:
    # The list
    list: concatStrings (map f list);

  # Not a documentation comment.
  helper = x: x;

  /**
    Like `concatStrings`, with a prime.

    # Example

    ```nix
    concatStrings' [ "a" ]
    ```
  */
  concatStrings' = concatStrings;
}
"#;

#[test]
fn a_library_file_becomes_a_manual() {
    let tree = parse_module(SOURCE).expect("failed to parse input");
    let mut locs = Locations::new();
    locs.insert(
        "concatStrings".to_string(),
        "[lib/strings.nix:14](https://github.com/NixOS/nixpkgs/blob/master/lib/strings.nix#L14) in `<nixpkgs>`"
            .to_string(),
    );
    let description = retrieve_description(&tree, "string manipulation functions", "strings");
    let entries = collect_entries(&tree, "lib", "strings", &locs, &None);
    assert_eq!(
        render_manual(&description, &entries, "function-library-"),
        "# string manipulation functions {#sec-functions-library-strings}\n\
         String manipulation functions. \n\
         \n\
         ## `lib.strings.concatStrings` {#function-library-strings-concatStrings}\n\
         \n\
         Concatenate a list of strings.\n\
         \n\
         \n\
         **Type:**\n\
         \n\
         ```\n\
         concatStrings :: [string] -> string\n\
         \n\
         ```\n\
         \n\
         **Example:**\n\
         \n\
         ```nix\n\
         \n\
         concatStrings [\"foo\" \"bar\"]\n\
         => \"foobar\"\n\
         ```\n\
         \n\
         Located at [lib/strings.nix:14](https://github.com/NixOS/nixpkgs/blob/master/lib/strings.nix#L14) in `<nixpkgs>`.\n\
         \n\
         ## `lib.strings.concatMapStrings` {#function-library-strings-concatMapStrings}\n\
         \n\
         Map a function over a list and concatenate the resulting strings.\n\
         \n\
         \n\
         **Type:**\n\
         \n\
         ```\n\
         concatMapStrings :: (a -> string) -> [a] -> string\n\
         ```\n\
         \n\
         `f`\n\
         \n\
         : The function to apply\n\
         \n\
         `list`\n\
         \n\
         : The list\n\
         \n\
         ## `lib.strings.concatStrings'` {#function-library-strings-concatStrings-prime}\n\
         \n\
         \n\
         Like `concatStrings`, with a prime.\n\
         \n\
         ### Example\n\
         \n\
         ```nix\n\
         concatStrings' [ \"a\" ]\n\
         ```\n\
         \n"
    );
}

#[test]
fn without_description_and_category_the_manual_starts_with_an_empty_line() {
    let tree = parse_module(SOURCE).expect("failed to parse input");
    let description = retrieve_description(&tree, "", "");
    let entries = collect_entries(&tree, "", "", &Locations::new(), &Some(Vec::new()));
    assert!(entries.is_empty());
    assert_eq!(render_manual(&description, &entries, ""), "\n");
}

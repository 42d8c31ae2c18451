# graphql_schema_parser

Reads a GraphQL schema written as text into plain records: object, input object,
interface, scalar, enum and union types with their extensions applied, directive
definitions, fragments, operations and schema definitions. The text is parsed by
`apollo_parser`; everything the parser leaves as raw text (enum values with their
descriptions and directives, selection sets, directive arguments, written types) is read
by the library itself, and each field is then marked when its type is one of the schema's
enums, scalars or unions.

The library in `src/` is verified with Verus. Each reading step has a contract stated
over mathematical views of its input and output:

- `text`, `patterns`: characters, whitespace and word classes, and the text patterns
  (leftmost-first matching, all matches, replacement) the reader uses.
- `syntax`: the parser's tree as a preorder list of elements, and the typed accessors
  (child nodes, child tokens, names) over that list.
- `selection`, `directives`, `fields`, `enum_values`: the readers of selection sets,
  applied directives, fields and arguments, and enum value blocks.
- `definitions`, `schema`: each kind of definition and extension, and the whole schema.
- `process`: marking fields by the kind of their type, in order or in parallel.
- `laws`: properties that hold for every input, proved.

`app/` holds the program around the library: reading files, printing the parser's
errors and messages, and serializable copies of the records for JSON and JavaScript.

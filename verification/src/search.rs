//! The full-text index of the server, held in memory: building it from
//! the prepared files together with the table of their definitions, and
//! searching it for the paths of the best-matching files.
use tantivy::collector::TopDocs;
use tantivy::query::{Query, QueryParser, QueryParserError};
use tantivy::schema::{Field, Schema, SchemaBuilder, Value, STORED, STRING, TEXT};
use tantivy::{DocAddress, Index, IndexReader, IndexWriter, Searcher, TantivyDocument, TantivyError};
use vstd::prelude::*;

use crate::server::{
    check_limit, MAX_LIMIT, check_query, info_models, snippet_for_query, spec_snippet_for_query, SearchResult,
    SymbolInfo, SymbolInfoModel, SymbolTable, ToolError,
};
use crate::text::trim;

verus! {

#[verifier::external_type_specification]
#[verifier::external_body]
pub struct ExIndex(Index);

#[verifier::external_type_specification]
#[verifier::external_body]
pub struct ExIndexReader(IndexReader);

#[verifier::external_type_specification]
#[verifier::external_body]
pub struct ExSearcher(Searcher);

#[verifier::external_type_specification]
#[verifier::external_body]
pub struct ExSchema(Schema);

#[verifier::external_type_specification]
#[verifier::external_body]
pub struct ExSchemaBuilder(SchemaBuilder);

#[verifier::external_type_specification]
pub struct ExDocAddress(DocAddress);

#[verifier::external_type_specification]
#[verifier::external_body]
pub struct ExTantivyDocument(TantivyDocument);

#[verifier::external_type_specification]
#[verifier::external_body]
pub struct ExTantivyError(TantivyError);

#[verifier::external_type_specification]
#[verifier::external_body]
pub struct ExQueryParser(QueryParser);

#[verifier::external_type_specification]
#[verifier::external_body]
pub struct ExQueryParserError(QueryParserError);


/// A writer adding documents to an index.
///
/// Holds a `tantivy::IndexWriter`, whose type has a bound on tantivy's
/// `Document` trait that cannot be declared here; its methods are reached
/// through the wrappers below.
#[verifier::external_body]
pub struct DocumentWriter {
    writer: IndexWriter,
}

/// The documents handed to a writer, in order, each as its values.
pub uninterp spec fn writer_documents(writer: DocumentWriter) -> Seq<Seq<(u32, Option<Seq<char>>)>>;

/// A parsed search query.
///
/// Holds the `Box<dyn tantivy::query::Query>` that `QueryParser::parse_query`
/// returns; a trait object of an outside trait cannot be declared here.
#[verifier::external_body]
pub struct ParsedQuery {
    pub query: Box<dyn Query>,
}

/// The options of a text field.
#[derive(Clone, Copy)]
pub enum FieldOptions {
    /// An untokenized, stored string (`STRING | STORED`).
    StoredString,
    /// A tokenized, unstored text (`TEXT`).
    Text,
}

/// The fields a schema builder holds, in the order they were added: name
/// and options. A field's number is its position.
pub uninterp spec fn builder_fields(builder: SchemaBuilder) -> Seq<(Seq<char>, FieldOptions)>;

/// The fields a schema holds, in order: name and options. A field's number
/// is its position.
pub uninterp spec fn schema_fields(schema: Schema) -> Seq<(Seq<char>, FieldOptions)>;

/// Some field of `fields` is named `name`.
pub open spec fn has_field_named(fields: Seq<(Seq<char>, FieldOptions)>, name: Seq<char>) -> bool {
    exists|i: int| 0 <= i < fields.len() && #[trigger] fields[i].0 == name
}

/// Wraps `Schema::builder`, which is `SchemaBuilder::default()`: a builder
/// without fields.
#[verifier::external_body]
fn schema_builder() -> (r: SchemaBuilder)
    ensures
        builder_fields(r) == Seq::<(Seq<char>, FieldOptions)>::empty(),
{
    Schema::builder()
}

/// Wraps `SchemaBuilder::add_text_field`, with the options named, giving
/// the new field's number (`Field::field_id`). The field is added last and
/// numbered by the count of fields before it. A name already used, an
/// empty name and one starting with `-` panic, so they are ruled out.
#[verifier::external_body]
fn add_text_field(builder: &mut SchemaBuilder, name: &str, options: FieldOptions) -> (r: u32)
    requires
        name@.len() > 0,
        name@[0] != '-',
        !has_field_named(builder_fields(*old(builder)), name@),
        builder_fields(*old(builder)).len() < u32::MAX,
    ensures
        builder_fields(*final(builder)) == builder_fields(*old(builder)).push((name@, options)),
        r == builder_fields(*old(builder)).len(),
{
    match options {
        FieldOptions::StoredString => builder.add_text_field(name, STRING | STORED).field_id(),
        FieldOptions::Text => builder.add_text_field(name, TEXT).field_id(),
    }
}

/// Wraps `SchemaBuilder::build`: the schema holds the builder's fields.
#[verifier::external_body]
fn build_schema(builder: SchemaBuilder) -> (r: Schema)
    ensures
        schema_fields(r) == builder_fields(builder),
{
    builder.build()
}

/// The fields of an index's schema, in order: name and options. A field's
/// number is its position. [`FieldOptions`] tells only the two kinds of
/// field the library makes (a stored string, an unstored text); for a
/// schema with fields of other options this names no real field list.
pub uninterp spec fn index_schema_fields(index: Index) -> Seq<(Seq<char>, FieldOptions)>;

/// Wraps `Schema::num_fields` on the index's schema (`Index::schema`).
#[verifier::external_body]
fn field_count(index: &Index) -> (r: usize)
    ensures
        r == index_schema_fields(*index).len(),
{
    index.schema().num_fields()
}

/// The least memory tantivy gives one indexing thread
/// (`MEMORY_BUDGET_NUM_BYTES_MIN`).
pub const THREAD_MEMORY_MIN: usize = 15_000_000;

/// The most indexing threads the server asks tantivy for (tantivy's own
/// `MAX_NUM_THREAD`).
pub const MAX_WRITER_THREADS: usize = 8;

/// The fields of the schema of a writer's index.
pub uninterp spec fn writer_fields(writer: DocumentWriter) -> Seq<(Seq<char>, FieldOptions)>;

/// The documents a writer has committed to its index, in the order they
/// were handed to it.
pub uninterp spec fn committed_documents(writer: DocumentWriter) -> Seq<DocumentValues>;

/// Wraps `Index::create_in_ram` and `Index::writer_with_num_threads` on the
/// new index, which divides the budget among the threads (so they cannot
/// be 0). The writer fails when a thread's share is under 15 MB or at
/// 4 GB, or when its worker threads cannot be started. The index is new,
/// so nothing has been handed to the writer or committed yet.
#[verifier::external_body]
fn new_index_writer(schema: Schema, threads: usize, memory_budget: usize) -> (r: Result<DocumentWriter, TantivyError>)
    requires
        threads >= 1,
    ensures
        r matches Ok(w) ==> {
            &&& writer_documents(w) == Seq::<DocumentValues>::empty()
            &&& committed_documents(w) == Seq::<DocumentValues>::empty()
            &&& writer_fields(w) == schema_fields(schema)
        },
{
    Index::create_in_ram(schema).writer_with_num_threads(threads, memory_budget).map(
        |writer| DocumentWriter { writer },
    )
}

/// Wraps `IndexWriter::index`, cloning the writer's index.
#[verifier::external_body]
fn writer_index(writer: &DocumentWriter) -> (r: Index)
    ensures
        index_schema_fields(r) == writer_fields(*writer),
{
    writer.writer.index().clone()
}

/// Wraps `IndexWriter::add_document` (the operation stamp is dropped): on
/// success the document is handed to the writer after the others; nothing
/// is committed by it.
#[verifier::external_body]
fn add_document(writer: &mut DocumentWriter, document: TantivyDocument) -> (r: Result<(), TantivyError>)
    ensures
        writer_fields(*final(writer)) == writer_fields(*old(writer)),
        committed_documents(*final(writer)) == committed_documents(*old(writer)),
        r is Ok ==> writer_documents(*final(writer)) == writer_documents(*old(writer)).push(
            document_values(document),
        ),
{
    writer.writer.add_document(document).map(|_| ())
}

/// Wraps `IndexWriter::commit` (the operation stamp is dropped): on
/// success every document handed to the writer is committed.
#[verifier::external_body]
fn commit(writer: &mut DocumentWriter) -> (r: Result<(), TantivyError>)
    ensures
        writer_fields(*final(writer)) == writer_fields(*old(writer)),
        writer_documents(*final(writer)) == writer_documents(*old(writer)),
        r is Ok ==> committed_documents(*final(writer)) == writer_documents(*old(writer)),
{
    writer.writer.commit().map(|_| ())
}

/// A key of a document in a searcher: its segment's position and its
/// number in that segment.
pub type DocKey = (u32, u32);

/// The key of a document address.
pub open spec fn key_of(address: DocAddress) -> DocKey {
    (address.segment_ord, address.doc_id)
}

/// The documents a searcher reads, by key, each as the values it was
/// indexed with. A searcher is a snapshot: what it reads never changes.
pub uninterp spec fn searcher_documents(searcher: Searcher) -> Map<DocKey, DocumentValues>;

/// The fields of the schema a searcher reads with.
pub uninterp spec fn searcher_fields(searcher: Searcher) -> Seq<(Seq<char>, FieldOptions)>;

/// The number of segments a searcher reads (`Searcher::segment_readers`).
pub uninterp spec fn searcher_segment_count(searcher: Searcher) -> nat;

/// The searcher reads an index held in memory (a `RamDirectory`), whose
/// reads do not fail.
pub uninterp spec fn searcher_in_memory(searcher: Searcher) -> bool;

/// The keyed documents `m` are exactly the documents `docs`: one key for
/// each position of `docs`, holding the document there.
pub open spec fn holds_documents(m: Map<DocKey, DocumentValues>, docs: Seq<DocumentValues>) -> bool {
    &&& m.dom().finite()
    &&& m.dom().len() == docs.len()
    &&& exists|pos: Map<DocKey, int>| #[trigger] positions_of(m, docs, pos)
}

/// `pos` gives each key of `m` a distinct position of `docs` holding the
/// key's document, and each position is given to some key.
pub open spec fn positions_of(m: Map<DocKey, DocumentValues>, docs: Seq<DocumentValues>, pos: Map<DocKey, int>) -> bool {
    &&& pos.dom() == m.dom()
    &&& forall|p: int| 0 <= p < docs.len() ==> #[trigger] position_taken(m, pos, p)
    &&& forall|k: DocKey| #[trigger] m.dom().contains(k) ==> 0 <= pos[k] < docs.len() && docs[pos[k]] == m[k]
    &&& forall|k: DocKey, l: DocKey|
        #![trigger m.dom().contains(k), m.dom().contains(l)]
        m.dom().contains(k) && m.dom().contains(l) && k != l ==> pos[k] != pos[l]
}

/// Some key of `m` is given the position `p`.
pub open spec fn position_taken(m: Map<DocKey, DocumentValues>, pos: Map<DocKey, int>, p: int) -> bool {
    exists|k: DocKey| #[trigger] m.dom().contains(k) && pos[k] == p
}

/// Wraps `Index::reader` on the writer's index (`IndexWriter::index`) and
/// `IndexReader::searcher`: a reader opened after a commit loads the
/// committed segments, so the searcher reads exactly the committed
/// documents, with the index's schema. The writer's index is the one
/// [`new_index_writer`] made in memory.
#[verifier::external_body]
fn open_searcher(writer: &DocumentWriter) -> (r: Result<Searcher, TantivyError>)
    ensures
        r matches Ok(s) ==> {
            &&& searcher_in_memory(s)
            &&& holds_documents(searcher_documents(s), committed_documents(*writer))
            &&& searcher_fields(s) == writer_fields(*writer)
        },
{
    writer.writer.index().reader().map(|reader| reader.searcher())
}

/// What a query parser holds: the fields of its index's schema, and the
/// numbers of its default fields.
pub uninterp spec fn parser_fields(parser: QueryParser) -> (Seq<(Seq<char>, FieldOptions)>, Seq<u32>);

/// Wraps `QueryParser::for_index`, with the field numbered `field` as the
/// only default field.
#[verifier::external_body]
fn query_parser(index: &Index, field: u32) -> (r: QueryParser)
    ensures
        parser_fields(r) == (index_schema_fields(*index), seq![field]),
{
    QueryParser::for_index(index, vec![Field::from_field_id(field)])
}

/// Whether tantivy's query parser accepts `text` for a schema with
/// `fields`, terms without a field searching `default_fields`.
pub uninterp spec fn query_accepted(fields: Seq<(Seq<char>, FieldOptions)>, default_fields: Seq<u32>, text: Seq<char>) -> bool;

/// Whether a document indexed with `values` (in a schema with `fields`)
/// matches the query tantivy parses from `text`, terms without a field
/// searching `default_fields`.
pub uninterp spec fn query_matches(
    fields: Seq<(Seq<char>, FieldOptions)>,
    default_fields: Seq<u32>,
    text: Seq<char>,
    values: DocumentValues,
) -> bool;

/// Whether the search of an index held in memory with the query tantivy
/// parses from `text` (for a schema with `fields`, terms without a field
/// searching `default_fields`) runs without an error: the query's weight is
/// built from the schema and the query alone, and the reads of such an
/// index do not fail.
pub uninterp spec fn query_runs(fields: Seq<(Seq<char>, FieldOptions)>, default_fields: Seq<u32>, text: Seq<char>) -> bool;

/// The query tantivy parses from `text` for a schema with `fields`, terms
/// without a field searching `default_fields`. Parsing is a function of
/// these alone.
pub uninterp spec fn parsed_query(fields: Seq<(Seq<char>, FieldOptions)>, default_fields: Seq<u32>, text: Seq<char>) -> ParsedQuery;

/// The parser's default fields are fields of its schema.
pub open spec fn parser_ready(parser: QueryParser) -> bool {
    forall|i: int|
        0 <= i < parser_fields(parser).1.len() ==> (#[trigger] parser_fields(parser).1[i])
            < parser_fields(parser).0.len()
}

/// Wraps `QueryParser::parse_query`; the parser looks its default fields up
/// in the schema by number, so they must be fields of it. Parsing depends
/// on the schema, the default fields and the text alone.
#[verifier::external_body]
fn parse_query(parser: &QueryParser, text: &str) -> (r: Result<ParsedQuery, QueryParserError>)
    requires
        parser_ready(*parser),
    ensures
        (r is Ok) == query_accepted(parser_fields(*parser).0, parser_fields(*parser).1, text@),
        r matches Ok(q) ==> q == parsed_query(parser_fields(*parser).0, parser_fields(*parser).1, text@),
{
    parser.parse_query(text).map(|query| ParsedQuery { query })
}

/// Why a search failed: the query was refused, or the index failed.
pub enum SearchFailure {
    Query(QueryParserError),
    Index(TantivyError),
}

/// Wraps `QueryParser::parse_query` followed by `Searcher::search` with the
/// `TopDocs` collector of `limit` documents; the scores are dropped.
/// `TopDocs::with_limit` panics on 0, and the collector reserves room for
/// twice `limit` results, which cannot be had for limits near the address
/// space. The parse fails exactly when the parser refuses the text. The
/// collector sees every live document that matches the query and keeps
/// the best `limit` of them, so each address returned is a distinct
/// document of the searcher that matches, and when fewer than `limit`
/// come back every matching document is among them. On an index held in
/// memory, the search of a query that runs does not fail.
#[verifier::external_body]
fn search_top(searcher: &Searcher, parser: &QueryParser, text: &str, limit: usize) -> (r: Result<Vec<DocAddress>, SearchFailure>)
    requires
        parser_ready(*parser),
        1 <= limit <= isize::MAX / 32,
    ensures
        (r matches Err(SearchFailure::Query(_))) == !query_accepted(
            parser_fields(*parser).0,
            parser_fields(*parser).1,
            text@,
        ),
        searcher_in_memory(*searcher) && query_accepted(
            parser_fields(*parser).0,
            parser_fields(*parser).1,
            text@,
        ) && query_runs(parser_fields(*parser).0, parser_fields(*parser).1, text@) ==> r is Ok,
        r matches Ok(v) ==> {
            &&& v@.len() <= limit
            &&& (v@.len() == limit || forall|k: DocKey|
                #[trigger] searcher_documents(*searcher).dom().contains(k) && query_matches(
                    parser_fields(*parser).0,
                    parser_fields(*parser).1,
                    text@,
                    searcher_documents(*searcher)[k],
                ) ==> exists|i: int| 0 <= i < v@.len() && key_of(v@[i]) == k)
            &&& forall|i: int, j: int|
                0 <= i < j < v@.len() ==> key_of(#[trigger] v@[i]) != key_of(#[trigger] v@[j])
            &&& forall|i: int|
                0 <= i < v@.len() ==> {
                    &&& (#[trigger] v@[i]).segment_ord < searcher_segment_count(*searcher)
                    &&& searcher_documents(*searcher).dom().contains(key_of(v@[i]))
                    &&& query_matches(
                        parser_fields(*parser).0,
                        parser_fields(*parser).1,
                        text@,
                        searcher_documents(*searcher)[key_of(v@[i])],
                    )
                }
        },
{
    let query = parser.parse_query(text).map_err(SearchFailure::Query)?;
    searcher
        .search(query.as_ref(), &TopDocs::with_limit(limit))
        .map(|hits| hits.into_iter().map(|(_, address)| address).collect())
        .map_err(SearchFailure::Index)
}

/// The values of a document kept in the store: those of its stored fields,
/// in order.
pub open spec fn stored_values(fields: Seq<(Seq<char>, FieldOptions)>, values: DocumentValues) -> DocumentValues {
    values.filter(|v: (u32, Option<Seq<char>>)| v.0 < fields.len() && fields[v.0 as int].1 is StoredString)
}

/// Wraps `Searcher::doc`, reading a stored document; the address's segment
/// must be one of the searcher's (it indexes the searcher's store readers).
/// The store keeps the values of the stored fields, in order; reading a
/// live document of an index held in memory does not fail.
#[verifier::external_body]
fn fetch_document(searcher: &Searcher, address: DocAddress) -> (r: Result<TantivyDocument, TantivyError>)
    requires
        address.segment_ord < searcher_segment_count(*searcher),
    ensures
        searcher_in_memory(*searcher) && searcher_documents(*searcher).dom().contains(key_of(address))
            ==> r is Ok,
        r matches Ok(d) ==> searcher_documents(*searcher).dom().contains(key_of(address)) ==> document_values(d)
            == stored_values(searcher_fields(*searcher), searcher_documents(*searcher)[key_of(address)]),
{
    searcher.doc::<TantivyDocument>(address)
}

/// The values a document holds, in the order they were added: the field's
/// number, and the text when the value is a string.
pub uninterp spec fn document_values(document: TantivyDocument) -> Seq<(u32, Option<Seq<char>>)>;

/// The first value of `values` for the field numbered `field`, if any.
pub open spec fn first_value(values: Seq<(u32, Option<Seq<char>>)>, field: u32) -> Option<
    Option<Seq<char>>,
>
    decreases values.len(),
{
    if values.len() == 0 {
        None
    } else if values[0].0 == field {
        Some(values[0].1)
    } else {
        first_value(values.drop_first(), field)
    }
}

/// Wraps `TantivyDocument::get_first` on the field numbered `field`,
/// keeping the value when it is a string: the first value of that field.
#[verifier::external_body]
fn first_string(document: &TantivyDocument, field: u32) -> (r: Option<String>)
    ensures
        r.deep_view() == match first_value(document_values(*document), field) {
            Some(Some(text)) => Some(text),
            _ => None,
        },
{
    document.get_first(Field::from_field_id(field)).and_then(|value| value.as_str()).map(
        |text| text.to_owned(),
    )
}

/// Wraps `TantivyDocument::default`: a document without values.
#[verifier::external_body]
fn new_document() -> (r: TantivyDocument)
    ensures
        document_values(r) == Seq::<(u32, Option<Seq<char>>)>::empty(),
{
    TantivyDocument::default()
}

/// Wraps `TantivyDocument::add_text` on the field numbered `field`: the
/// string value is added last.
#[verifier::external_body]
fn add_text(document: &mut TantivyDocument, field: u32, text: &str)
    ensures
        document_values(*final(document)) == document_values(*old(document)).push(
            (field, Some(text@)),
        ),
{
    document.add_text(Field::from_field_id(field), text)
}

/// Wraps `TantivyError`'s `Display`: its message.
#[verifier::external_body]
fn tantivy_message(error: &TantivyError) -> String {
    error.to_string()
}

/// Wraps `QueryParserError`'s `Display`: its message.
#[verifier::external_body]
fn query_message(error: &QueryParserError) -> String {
    error.to_string()
}


/// The two fields of an indexed document, as [`index_schema`] numbers
/// them.
#[derive(Clone, Copy)]
pub struct DocumentFields {
    path: u32,
    body: u32,
}

impl DocumentFields {
    /// The fields are those of [`index_fields`]: `path` numbered 0 and
    /// `body` numbered 1.
    #[verifier::type_invariant]
    spec fn numbered_as_the_schema(&self) -> bool {
        self.path == 0 && self.body == 1
    }

    /// The number of the file's path field, stored and matched whole.
    pub fn path(&self) -> (r: u32)
        ensures
            r == 0,
    {
        proof {
            use_type_invariant(self);
        }
        self.path
    }

    /// The number of the file's contents field, tokenized for search.
    pub fn body(&self) -> (r: u32)
        ensures
            r == 1,
    {
        proof {
            use_type_invariant(self);
        }
        self.body
    }
}

/// The schema of the index and its fields.
pub struct IndexSchema {
    schema: Schema,
    fields: DocumentFields,
}

/// The fields of the index's schema: a stored `path` string numbered 0 and
/// a searchable `body` text numbered 1.
pub open spec fn index_fields() -> Seq<(Seq<char>, FieldOptions)> {
    seq![("path"@, FieldOptions::StoredString), ("body"@, FieldOptions::Text)]
}

/// The schema of the index: a stored `path` string and a searchable `body`
/// text.
pub fn index_schema() -> (r: IndexSchema)
    ensures
        schema_fields(r.spec_schema()) == index_fields(),
{
    let mut builder = schema_builder();
    proof {
        reveal_strlit("path");
        reveal_strlit("body");
    }
    let path = add_text_field(&mut builder, "path", FieldOptions::StoredString);
    proof {
        let fs = builder_fields(builder);
        assert(fs =~= seq![("path"@, FieldOptions::StoredString)]);
        if has_field_named(fs, "body"@) {
            let i = choose|i: int| 0 <= i < fs.len() && #[trigger] fs[i].0 == "body"@;
            assert(fs[i].0 == "path"@);
            reveal_strlit("body");
            reveal_strlit("path");
            assert("body"@[0] != "path"@[0]);
        }
    }
    let body = add_text_field(&mut builder, "body", FieldOptions::Text);
    let schema = build_schema(builder);
    assert(schema_fields(schema) =~= index_fields());
    IndexSchema { schema, fields: DocumentFields { path, body } }
}

impl IndexSchema {
    /// The schema itself.
    pub closed spec fn spec_schema(&self) -> Schema {
        self.schema
    }

    /// The fields documents of this schema are made of.
    pub fn fields(&self) -> DocumentFields {
        self.fields
    }
}

/// A file ready for the index: its document and the definitions in it.
pub struct PreparedFile {
    document: TantivyDocument,
    symbols: Vec<SymbolInfo>,
}

/// Each definition of `ms` is on a line counted from 1, and in the file
/// whose path the document `values` holds first in the `path` field.
pub open spec fn located_in(ms: Seq<SymbolInfoModel>, values: DocumentValues) -> bool {
    forall|k: int|
        0 <= k < ms.len() ==> (#[trigger] ms[k]).2 >= 1 && first_value(values, 0) == Some(
            Some(ms[k].1),
        )
}

impl PreparedFile {
    /// The values of the file's document.
    pub closed spec fn values(&self) -> DocumentValues {
        document_values(self.document)
    }

    /// The definitions found in the file.
    pub closed spec fn definitions(&self) -> Seq<SymbolInfoModel> {
        info_models(self.symbols@)
    }

    /// The definitions are located in the file the document stands for.
    #[verifier::type_invariant]
    spec fn definitions_located(&self) -> bool {
        located_in(info_models(self.symbols@), document_values(self.document))
    }

    /// The definitions found in the file.
    pub fn symbols(&self) -> (r: &Vec<SymbolInfo>)
        ensures
            info_models(r@) == self.definitions(),
    {
        &self.symbols
    }
}

/// The document of the file at `path` (a text in `language`), and the
/// definitions its syntax tree holds.
pub fn prepare_file(fields: DocumentFields, path: &str, language: &str, contents: &str) -> (r:
    PreparedFile)
    ensures
        r.values() == seq![(0u32, Some(path@)), (1u32, Some(contents@))],
        r.definitions() == crate::syntax::spec_tree_symbols(path@, language@, contents@),
        forall|i: int|
            0 <= i < r.definitions().len() ==> crate::syntax::tree_symbol_ok(
                path@,
                language@,
                #[trigger] r.definitions()[i],
            ),
{
    let path_field = fields.path();
    let body_field = fields.body();
    let mut document = new_document();
    add_text(&mut document, path_field, path);
    add_text(&mut document, body_field, contents);
    let symbols = crate::syntax::extract_symbols(path, language, contents);
    proof {
        let values = document_values(document);
        assert(values =~= seq![(0u32, Some(path@)), (1u32, Some(contents@))]);
        assert(first_value(values, 0) == Some(Some(path@)));
        let ms = info_models(symbols@);
        assert forall|k: int| 0 <= k < ms.len() implies (#[trigger] ms[k]).2 >= 1 && first_value(
            values,
            0,
        ) == Some(Some(ms[k].1)) by {
            assert(ms[k] == symbols@[k]@);
        }
    }
    PreparedFile { document, symbols }
}

/// The definitions of the first `k` prepared files, in order.
pub open spec fn file_symbols(files: Seq<PreparedFile>, k: int) -> Seq<SymbolInfoModel>
    decreases k,
{
    if k <= 0 {
        Seq::empty()
    } else {
        file_symbols(files, k - 1) + files[k - 1].definitions()
    }
}

/// The definitions of `ms` named `name`, in order.
pub open spec fn named_in(ms: Seq<SymbolInfoModel>, name: Seq<char>) -> Seq<SymbolInfoModel>
    decreases ms.len(),
{
    if ms.len() == 0 {
        Seq::empty()
    } else {
        let before = named_in(ms.drop_last(), name);
        if ms.last().0 == name {
            before.push(ms.last())
        } else {
            before
        }
    }
}

/// The number of indexing threads for the parallelism the machine offers:
/// that many, at least two and at most [`MAX_WRITER_THREADS`], and two when
/// it is unknown.
pub fn writer_threads(available: Option<usize>) -> (r: usize)
    ensures
        r == match available {
            Some(n) => if n < 2 {
                2
            } else if n > MAX_WRITER_THREADS {
                MAX_WRITER_THREADS
            } else {
                n
            },
            None => 2,
        },
{
    match available {
        Some(n) => if n < 2 {
            2
        } else if n > MAX_WRITER_THREADS {
            MAX_WRITER_THREADS
        } else {
            n
        },
        None => 2,
    }
}

/// The memory the writer gets for `threads` indexing threads: 30 MB, or
/// 15 MB per thread when that is more, so that every thread gets at least
/// tantivy's minimum.
pub fn writer_budget(threads: usize) -> (r: usize)
    requires
        threads * THREAD_MEMORY_MIN <= usize::MAX,
    ensures
        r == if threads * THREAD_MEMORY_MIN > 30_000_000 {
            threads * THREAD_MEMORY_MIN
        } else {
            30_000_000
        },
        r >= threads * THREAD_MEMORY_MIN,
{
    if threads * THREAD_MEMORY_MIN > 30_000_000 {
        threads * THREAD_MEMORY_MIN
    } else {
        30_000_000
    }
}

/// The values of a document, as plain values.
pub type DocumentValues = Seq<(u32, Option<Seq<char>>)>;

/// Each definition of `ms` is on a line counted from 1, and in a file
/// whose path one of the documents `docs` holds first in the `path`
/// field.
pub open spec fn located_among(ms: Seq<SymbolInfoModel>, docs: Seq<DocumentValues>) -> bool {
    forall|k: int|
        0 <= k < ms.len() ==> (#[trigger] ms[k]).2 >= 1 && exists|i: int|
            0 <= i < docs.len() && first_value(#[trigger] docs[i], 0) == Some(Some(ms[k].1))
}

/// Adding a file's definitions, located in its document, to definitions
/// located among earlier documents keeps them located among all.
proof fn lemma_located_step(
    before: Seq<SymbolInfoModel>,
    added: Seq<SymbolInfoModel>,
    docs: Seq<DocumentValues>,
    values: DocumentValues,
)
    requires
        located_among(before, docs),
        located_in(added, values),
    ensures
        located_among(before + added, docs.push(values)),
{
    let all = before + added;
    let ds = docs.push(values);
    assert forall|k: int| 0 <= k < all.len() implies (#[trigger] all[k]).2 >= 1 && exists|i: int|
        0 <= i < ds.len() && first_value(#[trigger] ds[i], 0) == Some(Some(all[k].1)) by {
        if k < before.len() {
            assert(all[k] == before[k]);
            let i = choose|i: int| 0 <= i < docs.len() && first_value(#[trigger] docs[i], 0) == Some(Some(before[k].1));
            assert(ds[i] == docs[i]);
        } else {
            assert(all[k] == added[k - before.len()]);
            assert(ds[docs.len() as int] == values);
        }
    }
}

/// The definitions of `ms` named `name` are definitions of `ms`.
proof fn lemma_named_in_within(ms: Seq<SymbolInfoModel>, name: Seq<char>)
    ensures
        forall|k: int| 0 <= k < named_in(ms, name).len() ==> exists|j: int|
            0 <= j < ms.len() && ms[j] == #[trigger] named_in(ms, name)[k],
    decreases ms.len(),
{
    if ms.len() > 0 {
        let rest = ms.drop_last();
        lemma_named_in_within(rest, name);
        let r = named_in(ms, name);
        assert forall|k: int| 0 <= k < r.len() implies exists|j: int|
            0 <= j < ms.len() && ms[j] == #[trigger] r[k] by {
            let b = named_in(rest, name);
            if k < b.len() {
                assert(r[k] == b[k]);
                let j = choose|j: int| 0 <= j < rest.len() && rest[j] == #[trigger] b[k];
                assert(ms[j] == rest[j]);
            } else {
                assert(ms[ms.len() - 1] == r[k]);
            }
        }
    }
}

/// The definitions named `name` among definitions located among `docs`
/// are located among them too.
proof fn lemma_named_located(ms: Seq<SymbolInfoModel>, name: Seq<char>, docs: Seq<DocumentValues>)
    requires
        located_among(ms, docs),
    ensures
        located_among(named_in(ms, name), docs),
{
    lemma_named_in_within(ms, name);
    let r = named_in(ms, name);
    assert forall|k: int| 0 <= k < r.len() implies (#[trigger] r[k]).2 >= 1 && exists|i: int|
        0 <= i < docs.len() && first_value(#[trigger] docs[i], 0) == Some(Some(r[k].1)) by {
        let j = choose|j: int| 0 <= j < ms.len() && ms[j] == #[trigger] r[k];
        assert(ms[j].2 >= 1);
    }
}

/// The documents of the prepared files, in order.
pub open spec fn prepared_documents(files: Seq<PreparedFile>) -> Seq<DocumentValues> {
    files.map_values(|f: PreparedFile| f.values())
}

/// The full-text index of the served files, in memory.
pub struct SearchIndex {
    index: Index,
    searcher: Searcher,
    fields: DocumentFields,
    documents: Ghost<Seq<DocumentValues>>,
}

impl SearchIndex {
    /// The documents the index holds: those committed, in the order they
    /// were added.
    pub closed spec fn documents(&self) -> Seq<DocumentValues> {
        self.documents@
    }

    /// The index and its searcher have the schema of [`index_schema`], and
    /// the searcher reads exactly the committed documents.
    #[verifier::type_invariant]
    spec fn reads_its_documents(&self) -> bool {
        &&& index_schema_fields(self.index) == index_fields()
        &&& searcher_fields(self.searcher) == index_fields()
        &&& holds_documents(searcher_documents(self.searcher), self.documents@)
        &&& searcher_in_memory(self.searcher)
    }
}

impl IndexSchema {
    /// A schema built by [`index_schema`].
    #[verifier::type_invariant]
    spec fn is_index_schema(&self) -> bool {
        schema_fields(self.schema) == index_fields()
    }
}

/// Adds the definitions of one file to the table.
fn add_symbols(table: &mut SymbolTable, symbols: Vec<SymbolInfo>, Ghost(before): Ghost<Seq<SymbolInfoModel>>)
    requires
        old(table).wf(),
        forall|n: Seq<char>| #[trigger] old(table).named(n) == named_in(before, n),
    ensures
        final(table).wf(),
        forall|n: Seq<char>|
            #[trigger] final(table).named(n) == named_in(before + info_models(symbols@), n),
{
    let ghost all = info_models(symbols@);
    let mut k: usize = 0;
    while k < symbols.len()
        invariant
            k <= symbols@.len(),
            all == info_models(symbols@),
            table.wf(),
            forall|n: Seq<char>| #[trigger] table.named(n) == named_in(before + all.take(k as int), n),
        decreases symbols@.len() - k,
    {
        let symbol = symbols[k].clone();
        let ghost prefix = before + all.take(k as int);
        let ghost next = before + all.take(k + 1);
        assert(next.drop_last() =~= prefix);
        assert(next.last() == symbol@);
        table.insert(symbol);
        assert forall|n: Seq<char>| #[trigger] table.named(n) == named_in(next, n) by {}
        k = k + 1;
    }
    assert(all.take(k as int) =~= all);
}

/// Builds the index of the prepared files, in order, with `threads`
/// indexing threads and the memory [`writer_budget`] gives them, and the
/// table of their definitions. On success the index holds the prepared
/// documents, committed in order, and the table holds each file's
/// definitions; a failure of the index is answered with its message.
pub fn build_index(schema: IndexSchema, files: Vec<PreparedFile>, threads: usize) -> (r: Result<
    (SearchIndex, SymbolTable),
    ToolError,
>)
    requires
        1 <= threads,
        threads * THREAD_MEMORY_MIN <= usize::MAX,
    ensures
        r matches Ok((index, table)) ==> {
            &&& table.wf()
            &&& forall|n: Seq<char>|
                #[trigger] table.named(n) == named_in(file_symbols(files@, files@.len() as int), n)
            &&& index.documents() == prepared_documents(files@)
            &&& forall|n: Seq<char>| located_among(#[trigger] table.named(n), index.documents())
        },
        r matches Err(e) ==> e is Other,
{
    proof {
        use_type_invariant(&schema);
    }
    let fields = schema.fields;
    let budget = writer_budget(threads);
    let mut writer = match new_index_writer(schema.schema, threads, budget) {
        Ok(writer) => writer,
        Err(e) => return Err(ToolError::Other(tantivy_message(&e))),
    };
    let ghost all_files = files@;
    let ghost all_documents = prepared_documents(files@);
    let mut table = SymbolTable::new();
    assert forall|n: Seq<char>| #[trigger] table.named(n) == named_in(file_symbols(all_files, 0), n) by {
        assert(file_symbols(all_files, 0) =~= Seq::<SymbolInfoModel>::empty());
    }
    assert(all_documents.take(0) =~= Seq::<DocumentValues>::empty());
    for file in it: files
        invariant
            it.seq() == all_files,
            all_documents == prepared_documents(all_files),
            table.wf(),
            forall|n: Seq<char>|
                #[trigger] table.named(n) == named_in(file_symbols(all_files, it.index()), n),
            writer_documents(writer) == all_documents.take(it.index()),
            writer_fields(writer) == index_fields(),
            located_among(file_symbols(all_files, it.index()), all_documents.take(it.index())),
    {
        proof {
            use_type_invariant(&file);
        }
        let ghost done = it.index();
        let ghost file_model = file;
        let PreparedFile { document, symbols } = file;
        let ghost values = document_values(document);
        assert(values == all_documents[it.index()]);
        if let Err(e) = add_document(&mut writer, document) {
            return Err(ToolError::Other(tantivy_message(&e)));
        }
        assert(all_documents.take(it.index() + 1) =~= all_documents.take(it.index()).push(values));
        let ghost before = file_symbols(all_files, it.index());
        add_symbols(&mut table, symbols, Ghost(before));
        assert forall|n: Seq<char>| #[trigger] table.named(n) == named_in(file_symbols(all_files, it.index() + 1), n) by {
            assert(file_symbols(all_files, it.index() + 1) == before + info_models(symbols@));
        }
        proof {
            lemma_located_step(before, info_models(symbols@), all_documents.take(done), values);
            assert(all_files[done] == file_model);
            assert(file_symbols(all_files, done + 1) == before + info_models(symbols@));
        }
    }
    assert(all_documents.take(all_files.len() as int) =~= all_documents);
    proof {
        assert forall|n: Seq<char>| located_among(#[trigger] table.named(n), all_documents) by {
            lemma_named_located(file_symbols(all_files, all_files.len() as int), n, all_documents);
        }
    }
    if let Err(e) = commit(&mut writer) {
        return Err(ToolError::Other(tantivy_message(&e)));
    }
    let searcher = match open_searcher(&writer) {
        Ok(searcher) => searcher,
        Err(e) => return Err(ToolError::Other(tantivy_message(&e))),
    };
    let index = writer_index(&writer);
    Ok((SearchIndex { index, searcher, fields, documents: Ghost(all_documents) }, table))
}

/// Parses `query` in tantivy's query syntax for a search of `index`, terms
/// without a field searching the field numbered `content_field`. A field
/// the schema does not have is answered with a message; otherwise the
/// query is parsed exactly when tantivy's parser accepts it, and a refused
/// query is answered with the parser's message.
pub fn parse_content_query(index: &Index, content_field: u32, query: &str) -> (r: Result<
    ParsedQuery,
    ToolError,
>)
    ensures
        content_field >= index_schema_fields(*index).len() ==> (r matches Err(ToolError::Other(m))
            && m@ == "the default search field is not in the schema"@),
        content_field < index_schema_fields(*index).len() ==> ((r is Ok) == query_accepted(
            index_schema_fields(*index),
            seq![content_field],
            query@,
        )),
        r matches Ok(q) ==> q == parsed_query(index_schema_fields(*index), seq![content_field], query@),
        r matches Err(e) ==> e is Other,
{
    let count = field_count(index);
    if content_field as usize >= count {
        return Err(ToolError::Other("the default search field is not in the schema".to_owned()));
    }
    let parser = query_parser(index, content_field);
    match parse_query(&parser, query) {
        Ok(parsed) => Ok(parsed),
        Err(e) => Err(ToolError::Other(query_message(&e))),
    }
}

/// The string each document (given by its values) holds first in the
/// field numbered `field`, in the documents' order (documents without one
/// give none).
pub open spec fn paths_of(docs: Seq<DocumentValues>, field: u32) -> Seq<Seq<char>>
    decreases docs.len(),
{
    if docs.len() == 0 {
        Seq::empty()
    } else {
        let before = paths_of(docs.drop_last(), field);
        match first_value(docs.last(), field) {
            Some(Some(text)) => before.push(text),
            _ => before,
        }
    }
}

/// The first string of the field numbered `field` in each document.
pub fn document_paths(docs: &[TantivyDocument], field: u32) -> (r: Vec<String>)
    ensures
        r.deep_view() == paths_of(docs@.map_values(|d: TantivyDocument| document_values(d)), field),
        r@.len() <= docs@.len(),
{
    let ghost all = docs@.map_values(|d: TantivyDocument| document_values(d));
    let mut paths: Vec<String> = Vec::new();
    let mut k: usize = 0;
    while k < docs.len()
        invariant
            k <= docs@.len(),
            all == docs@.map_values(|d: TantivyDocument| document_values(d)),
            paths.deep_view() == paths_of(all.take(k as int), field),
            paths@.len() <= k,
        decreases docs@.len() - k,
    {
        let ghost before = paths.deep_view();
        assert(all.take(k + 1).drop_last() =~= all.take(k as int));
        assert(all.take(k + 1).last() == document_values(docs@[k as int]));
        if let Some(path) = first_string(&docs[k], field) {
            paths.push(path);
            assert(paths.deep_view() =~= before.push(path@));
        }
        k = k + 1;
    }
    assert(all.take(k as int) =~= all);
    paths
}

/// `pos` picks at most `limit` distinct documents of `docs`, each
/// matching `query` searched over the `body` field of [`index_fields`];
/// when it picks fewer than `limit`, it picks every matching document.
pub open spec fn matching_picks(docs: Seq<DocumentValues>, pos: Seq<int>, query: Seq<char>, limit: int) -> bool {
    &&& pos.len() <= limit
    &&& (pos.len() == limit || forall|p: int|
        0 <= p < docs.len() && query_matches(index_fields(), seq![1u32], query, #[trigger] docs[p])
            ==> pos.contains(p))
    &&& forall|i: int, j: int| 0 <= i < j < pos.len() ==> #[trigger] pos[i] != #[trigger] pos[j]
    &&& forall|i: int|
        0 <= i < pos.len() ==> 0 <= #[trigger] pos[i] < docs.len() && query_matches(
            index_fields(),
            seq![1u32],
            query,
            docs[pos[i]],
        )
}

/// The stored paths of the documents of `docs` that `pos` picks, in order.
pub open spec fn picked_paths(docs: Seq<DocumentValues>, pos: Seq<int>) -> Seq<Seq<char>> {
    paths_of(pos.map_values(|p: int| stored_values(index_fields(), docs[p])), 0)
}

impl SearchIndex {
    /// The paths of the files that best match `query` (in tantivy's query
    /// syntax, terms without a field searching the file contents), at most
    /// `limit` of them, best first: the stored path of distinct documents
    /// of the index that match. An empty or blank query, and a limit outside
    /// 1..=[`MAX_LIMIT`], are refused before the index is asked; a query the
    /// parser refuses and a failure of the index are answered with their
    /// message.
    pub fn search_paths(&self, query: &str, limit: usize) -> (r: Result<Vec<String>, ToolError>)
        ensures
            (trim(query@).len() == 0 || !(1 <= limit <= MAX_LIMIT)) == (r matches Err(
                ToolError::InvalidParams(_),
            )),
            r matches Err(ToolError::InvalidParams(m)) ==> m@ == if trim(query@).len() == 0 {
                "query cannot be empty"@
            } else {
                "limit must be between 1 and 50"@
            },
            r matches Err(e) ==> e is InvalidParams || e is Other,
            trim(query@).len() != 0 && 1 <= limit <= MAX_LIMIT && !query_accepted(
                index_fields(),
                seq![1u32],
                query@,
            ) ==> r is Err,
            trim(query@).len() != 0 && 1 <= limit <= MAX_LIMIT && query_accepted(
                index_fields(),
                seq![1u32],
                query@,
            ) && query_runs(index_fields(), seq![1u32], query@) ==> r is Ok,
            r matches Ok(paths) ==> exists|pos: Seq<int>|
                matching_picks(self.documents(), pos, query@, limit as int) && paths.deep_view()
                    == picked_paths(self.documents(), pos),
    {
        check_query(query)?;
        check_limit(limit)?;
        proof {
            use_type_invariant(self);
        }
        let ghost docs = self.documents();
        let ghost m = searcher_documents(self.searcher);
        let ghost pm = choose|pm: Map<DocKey, int>| positions_of(m, docs, pm);
        let parser = query_parser(&self.index, self.fields.body());
        let top = match search_top(&self.searcher, &parser, query, limit) {
            Ok(top) => top,
            Err(SearchFailure::Query(e)) => return Err(ToolError::Other(query_message(&e))),
            Err(SearchFailure::Index(e)) => return Err(ToolError::Other(tantivy_message(&e))),
        };
        assert(parser_fields(parser) == (index_fields(), seq![1u32]));
        let ghost pos = top@.map_values(|a: DocAddress| pm[key_of(a)]);
        let mut documents: Vec<TantivyDocument> = Vec::new();
        let mut k: usize = 0;
        while k < top.len()
            invariant
                k <= top@.len(),
                top@.len() <= limit,
                documents@.len() == k,
                trim(query@).len() != 0,
                1 <= limit <= MAX_LIMIT,
                m == searcher_documents(self.searcher),
                searcher_in_memory(self.searcher),
                top@.len() == limit || forall|k: DocKey|
                    #[trigger] m.dom().contains(k) && query_matches(index_fields(), seq![1u32], query@, m[k])
                        ==> exists|i: int| 0 <= i < top@.len() && key_of(top@[i]) == k,
                searcher_fields(self.searcher) == index_fields(),
                pos == top@.map_values(|a: DocAddress| pm[key_of(a)]),
                positions_of(m, docs, pm),
                forall|i: int|
                    0 <= i < top@.len() ==> {
                        &&& (#[trigger] top@[i]).segment_ord < searcher_segment_count(self.searcher)
                        &&& m.dom().contains(key_of(top@[i]))
                        &&& query_matches(index_fields(), seq![1u32], query@, m[key_of(top@[i])])
                    },
                forall|i: int, j: int|
                    0 <= i < j < top@.len() ==> key_of(#[trigger] top@[i]) != key_of(#[trigger] top@[j]),
                forall|i: int|
                    0 <= i < k ==> document_values(#[trigger] documents@[i]) == stored_values(
                        index_fields(),
                        docs[pos[i]],
                    ),
            decreases top@.len() - k,
        {
            let document = match fetch_document(&self.searcher, top[k]) {
                Ok(document) => document,
                Err(e) => return Err(ToolError::Other(tantivy_message(&e))),
            };
            proof {
                let key = key_of(top@[k as int]);
                assert(m.dom().contains(key));
                assert(docs[pm[key]] == m[key]);
            }
            documents.push(document);
            k = k + 1;
        }
        let paths = document_paths(documents.as_slice(), self.fields.path());
        proof {
            let fetched = documents@.map_values(|d: TantivyDocument| document_values(d));
            assert(fetched =~= pos.map_values(|p: int| stored_values(index_fields(), docs[p])));
            assert(matching_picks(docs, pos, query@, limit as int)) by {
                if pos.len() != limit {
                    assert forall|p: int|
                        0 <= p < docs.len() && query_matches(index_fields(), seq![1u32], query@, #[trigger] docs[p])
                        implies pos.contains(p) by {
                        assert(position_taken(m, pm, p));
                        let key = choose|key: DocKey| #[trigger] m.dom().contains(key) && pm[key] == p;
                        assert(m[key] == docs[p]);
                        assert(query_matches(index_fields(), seq![1u32], query@, m[key]));
                        let i = choose|i: int| 0 <= i < top@.len() && key_of(top@[i]) == key;
                        assert(pos[i] == p);
                    }
                }
                assert forall|i: int, j: int| 0 <= i < j < pos.len() implies #[trigger] pos[i] != #[trigger] pos[j] by {
                    let ki = key_of(top@[i]);
                    let kj = key_of(top@[j]);
                    assert(m.dom().contains(ki));
                    assert(m.dom().contains(kj));
                }
                assert forall|i: int| 0 <= i < pos.len() implies 0 <= #[trigger] pos[i] < docs.len() && query_matches(
                    index_fields(),
                    seq![1u32],
                    query@,
                    docs[pos[i]],
                ) by {
                    let ki = key_of(top@[i]);
                    assert(m.dom().contains(ki));
                }
            }
            assert(paths.deep_view() == picked_paths(docs, pos));
        }
        Ok(paths)
    }
}

/// The hit shown for the file at `path`, whose text is `contents`: the
/// line that [`snippet_for_query`] picks.
pub fn search_result(path: String, contents: &str, query: &str) -> (r: SearchResult)
    ensures
        r@ == (
            path@,
            spec_snippet_for_query(contents@, query@).0,
            spec_snippet_for_query(contents@, query@).1,
        ),
{
    let (line, snippet) = snippet_for_query(contents, query);
    SearchResult { path, line, snippet }
}

} // verus!

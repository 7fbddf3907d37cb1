//! Queries against the album index, and how they are written in the
//! index's query language.

use crate::files::file_name::FileName;
use crate::helpers::redisearch::{escaped, push_escaped};
use crate::helpers::text::{decimal, push_decimal, push_text, string_of, to_chars};
use vstd::prelude::*;

verus! {

/// The items with the separator between each two of them.
pub open spec fn joined(items: Seq<Seq<char>>, separator: Seq<char>) -> Seq<char>
    decreases items.len(),
{
    if items.len() == 0 {
        Seq::empty()
    } else if items.len() == 1 {
        items[0]
    } else {
        joined(items.drop_last(), separator) + separator + items.last()
    }
}

/// The tag values as they stand in a query, each escaped.
pub open spec fn escaped_tags(items: Seq<Seq<char>>) -> Seq<Seq<char>> {
    items.map_values(|item: Seq<char>| escaped(item, true))
}

/// A clause that asks for one of the tag values; empty without values.
pub open spec fn tag_query(tag: Seq<char>, items: Seq<Seq<char>>) -> Seq<char> {
    if items.len() == 0 {
        Seq::empty()
    } else {
        tag + ":{"@ + joined(escaped_tags(items), "|"@) + "} "@
    }
}

/// A clause that asks for a number of at least `min`; empty without a
/// bound.
pub open spec fn min_num_query(tag: Seq<char>, min: Option<nat>) -> Seq<char> {
    match min {
        Some(m) => tag + ":["@ + decimal(m) + ", +inf] "@,
        None => Seq::empty(),
    }
}

/// A clause that asks for a number within bounds; empty without bounds.
pub open spec fn num_range_query(tag: Seq<char>, min: Option<nat>, max: Option<nat>) -> Seq<char> {
    match (min, max) {
        (Some(lo), Some(hi)) => tag + ":["@ + decimal(lo) + ", "@ + decimal(hi) + "] "@,
        (Some(lo), None) => tag + ":["@ + decimal(lo) + ", +inf] "@,
        (None, Some(hi)) => tag + ":[-inf, "@ + decimal(hi) + "] "@,
        (None, None) => Seq::empty(),
    }
}

/// A clause that asks for the free text; empty without text.
pub open spec fn text_query(text: Option<Seq<char>>) -> Seq<char> {
    match text {
        Some(t) => "("@ + escaped(t, false) + ") "@,
        None => Seq::empty(),
    }
}

/// The text without the space it ends in, if it ends in one.
pub open spec fn without_final_space(s: Seq<char>) -> Seq<char> {
    if s.len() > 0 && s.last() == ' ' {
        s.drop_last()
    } else {
        s
    }
}

/// Writes a clause that asks for one of the tag values.
pub fn get_tag_query(tag: &str, items: &Vec<String>) -> (clause: String)
    ensures
        clause@ == tag_query(tag@, items.deep_view()),
{
    let mut clause = String::new();
    if items.len() == 0 {
        return clause;
    }
    let ghost tags = escaped_tags(items.deep_view());
    push_text(&mut clause, tag);
    push_text(&mut clause, ":{");
    let mut i: usize = 0;
    assert(tags.subrange(0, 0) =~= Seq::<Seq<char>>::empty());
    assert(clause@ =~= tag@ + ":{"@ + joined(tags.subrange(0, 0), "|"@));
    while i < items.len()
        invariant
            i <= items.len(),
            tags == escaped_tags(items.deep_view()),
            clause@ == tag@ + ":{"@ + joined(tags.subrange(0, i as int), "|"@),
        decreases items.len() - i,
    {
        let ghost next = tags.subrange(0, i + 1);
        assert(next.drop_last() =~= tags.subrange(0, i as int));
        assert(next.last() == escaped(items@[i as int]@, true));
        if i > 0 {
            push_text(&mut clause, "|");
        }
        push_escaped(&mut clause, items[i].as_str(), true);
        assert(clause@ =~= tag@ + ":{"@ + joined(next, "|"@));
        i += 1;
    }
    assert(tags.subrange(0, items.len() as int) =~= tags);
    push_text(&mut clause, "} ");
    assert(clause@ =~= tag_query(tag@, items.deep_view()));
    clause
}

/// Writes a clause that asks for a number of at least `min`.
pub fn get_min_num_query(tag: &str, min: Option<usize>) -> (clause: String)
    ensures
        clause@ == min_num_query(
            tag@,
            match min {
                Some(m) => Some(m as nat),
                None => None,
            },
        ),
{
    let mut clause = String::new();
    match min {
        Some(m) => {
            push_text(&mut clause, tag);
            push_text(&mut clause, ":[");
            push_decimal(&mut clause, m as u64);
            push_text(&mut clause, ", +inf] ");
            assert(clause@ =~= tag@ + ":["@ + decimal(m as nat) + ", +inf] "@);
        },
        None => {},
    }
    clause
}

/// Writes a clause that asks for a number within bounds.
pub fn get_num_range_query(tag: &str, min: Option<u32>, max: Option<u32>) -> (clause: String)
    ensures
        clause@ == num_range_query(
            tag@,
            match min {
                Some(m) => Some(m as nat),
                None => None,
            },
            match max {
                Some(m) => Some(m as nat),
                None => None,
            },
        ),
{
    let mut clause = String::new();
    match (min, max) {
        (Some(lo), Some(hi)) => {
            push_text(&mut clause, tag);
            push_text(&mut clause, ":[");
            push_decimal(&mut clause, lo as u64);
            push_text(&mut clause, ", ");
            push_decimal(&mut clause, hi as u64);
            push_text(&mut clause, "] ");
            assert(clause@ =~= tag@ + ":["@ + decimal(lo as nat) + ", "@ + decimal(hi as nat)
                + "] "@);
        },
        (Some(lo), None) => {
            push_text(&mut clause, tag);
            push_text(&mut clause, ":[");
            push_decimal(&mut clause, lo as u64);
            push_text(&mut clause, ", +inf] ");
            assert(clause@ =~= tag@ + ":["@ + decimal(lo as nat) + ", +inf] "@);
        },
        (None, Some(hi)) => {
            push_text(&mut clause, tag);
            push_text(&mut clause, ":[-inf, ");
            push_decimal(&mut clause, hi as u64);
            push_text(&mut clause, "] ");
            assert(clause@ =~= tag@ + ":[-inf, "@ + decimal(hi as nat) + "] "@);
        },
        (None, None) => {},
    }
    clause
}

/// The texts of file names.
pub fn file_names_text(names: &Vec<FileName>) -> (texts: Vec<String>)
    ensures
        texts.deep_view() == names.deep_view(),
{
    let mut texts: Vec<String> = Vec::new();
    let mut i: usize = 0;
    while i < names.len()
        invariant
            i <= names.len(),
            texts.len() == i,
            forall|j: int| 0 <= j < i ==> texts@[j]@ == names@[j]@,
        decreases names.len() - i,
    {
        texts.push(names[i].to_string());
        i += 1;
    }
    assert(texts.deep_view() =~= names.deep_view());
    texts
}

/// Which part of a result a search returns.
#[derive(Clone, Copy, Debug)]
pub struct SearchPagination {
    pub offset: Option<usize>,
    pub limit: Option<usize>,
}

impl SearchPagination {
    /// The number of results to return: the limit asked for, else 100000.
    pub fn effective_limit(pagination: Option<&SearchPagination>) -> (limit: usize)
        ensures
            limit == match pagination {
                Some(p) => match p.limit {
                    Some(l) => l,
                    None => 100000usize,
                },
                None => 100000usize,
            },
    {
        match pagination {
            Some(p) => match p.limit {
                Some(l) => l,
                None => 100000,
            },
            None => 100000,
        }
    }

    /// The number of results to skip: the offset asked for, else none.
    pub fn effective_offset(pagination: Option<&SearchPagination>) -> (offset: usize)
        ensures
            offset == match pagination {
                Some(p) => match p.offset {
                    Some(o) => o,
                    None => 0usize,
                },
                None => 0usize,
            },
    {
        match pagination {
            Some(p) => match p.offset {
                Some(o) => o,
                None => 0,
            },
            None => 0,
        }
    }
}

/// What to look for among the albums. Every option left open restricts
/// nothing, but for duplicates: they are left out unless asked for.
#[derive(Debug)]
pub struct AlbumSearchQuery {
    pub text: Option<String>,
    pub exact_name: Option<String>,
    pub include_file_names: Vec<FileName>,
    pub exclude_file_names: Vec<FileName>,
    pub include_artists: Vec<String>,
    pub exclude_artists: Vec<String>,
    pub include_primary_genres: Vec<String>,
    pub exclude_primary_genres: Vec<String>,
    pub include_secondary_genres: Vec<String>,
    pub exclude_secondary_genres: Vec<String>,
    pub include_languages: Vec<String>,
    pub exclude_languages: Vec<String>,
    pub include_descriptors: Vec<String>,
    pub min_primary_genre_count: Option<usize>,
    pub min_secondary_genre_count: Option<usize>,
    pub min_descriptor_count: Option<usize>,
    pub min_release_year: Option<u32>,
    pub max_release_year: Option<u32>,
    pub include_duplicates: Option<bool>,
}

/// How an `AlbumSearchQuery` looks in contracts.
pub struct AlbumSearchQueryView {
    pub text: Option<Seq<char>>,
    pub exact_name: Option<Seq<char>>,
    pub include_file_names: Seq<Seq<char>>,
    pub exclude_file_names: Seq<Seq<char>>,
    pub include_artists: Seq<Seq<char>>,
    pub exclude_artists: Seq<Seq<char>>,
    pub include_primary_genres: Seq<Seq<char>>,
    pub exclude_primary_genres: Seq<Seq<char>>,
    pub include_secondary_genres: Seq<Seq<char>>,
    pub exclude_secondary_genres: Seq<Seq<char>>,
    pub include_languages: Seq<Seq<char>>,
    pub exclude_languages: Seq<Seq<char>>,
    pub include_descriptors: Seq<Seq<char>>,
    pub min_primary_genre_count: Option<nat>,
    pub min_secondary_genre_count: Option<nat>,
    pub min_descriptor_count: Option<nat>,
    pub min_release_year: Option<nat>,
    pub max_release_year: Option<nat>,
    pub include_duplicates: Option<bool>,
}

/// A bound as a natural number.
pub open spec fn bound_of_usize(bound: Option<usize>) -> Option<nat> {
    match bound {
        Some(b) => Some(b as nat),
        None => None,
    }
}

/// A bound as a natural number.
pub open spec fn bound_of_u32(bound: Option<u32>) -> Option<nat> {
    match bound {
        Some(b) => Some(b as nat),
        None => None,
    }
}

impl View for AlbumSearchQuery {
    type V = AlbumSearchQueryView;

    open spec fn view(&self) -> AlbumSearchQueryView {
        AlbumSearchQueryView {
            text: self.text.deep_view(),
            exact_name: self.exact_name.deep_view(),
            include_file_names: self.include_file_names.deep_view(),
            exclude_file_names: self.exclude_file_names.deep_view(),
            include_artists: self.include_artists.deep_view(),
            exclude_artists: self.exclude_artists.deep_view(),
            include_primary_genres: self.include_primary_genres.deep_view(),
            exclude_primary_genres: self.exclude_primary_genres.deep_view(),
            include_secondary_genres: self.include_secondary_genres.deep_view(),
            exclude_secondary_genres: self.exclude_secondary_genres.deep_view(),
            include_languages: self.include_languages.deep_view(),
            exclude_languages: self.exclude_languages.deep_view(),
            include_descriptors: self.include_descriptors.deep_view(),
            min_primary_genre_count: bound_of_usize(self.min_primary_genre_count),
            min_secondary_genre_count: bound_of_usize(self.min_secondary_genre_count),
            min_descriptor_count: bound_of_usize(self.min_descriptor_count),
            min_release_year: bound_of_u32(self.min_release_year),
            max_release_year: bound_of_u32(self.max_release_year),
            include_duplicates: self.include_duplicates,
        }
    }
}

impl AlbumSearchQueryView {
    /// The clause on the exact name; empty without one.
    pub open spec fn exact_name_clause(self) -> Seq<char> {
        match self.exact_name {
            Some(name) => tag_query("@name_tag"@, seq![name]),
            None => Seq::empty(),
        }
    }

    /// The clause that leaves duplicates out, unless they are asked for.
    pub open spec fn duplicates_clause(self) -> Seq<char> {
        if self.include_duplicates == Some(true) {
            Seq::empty()
        } else {
            num_range_query("@is_duplicate"@, Some(0nat), Some(0nat))
        }
    }

    /// The clauses on text, name, duplicates and numbers, in this order.
    pub open spec fn scalar_clauses(self) -> Seq<char> {
        text_query(self.text) + self.exact_name_clause() + self.duplicates_clause()
            + min_num_query("@primary_genre_count"@, self.min_primary_genre_count)
            + min_num_query("@secondary_genre_count"@, self.min_secondary_genre_count)
            + min_num_query("@descriptor_count"@, self.min_descriptor_count) + num_range_query(
            "@release_year"@,
            self.min_release_year,
            self.max_release_year,
        )
    }

    /// The clauses that ask for tag values, in this order.
    pub open spec fn include_clauses(self) -> Seq<char> {
        tag_query("@file_name"@, self.include_file_names) + tag_query(
            "@artist_file_name"@,
            self.include_artists,
        ) + tag_query("@primary_genre"@, self.include_primary_genres) + tag_query(
            "@secondary_genre"@,
            self.include_secondary_genres,
        ) + tag_query("@language"@, self.include_languages) + tag_query(
            "@descriptor"@,
            self.include_descriptors,
        )
    }

    /// The clauses that rule tag values out, in this order.
    pub open spec fn exclude_clauses(self) -> Seq<char> {
        tag_query("-@artist_file_name"@, self.exclude_artists) + tag_query(
            "-@file_name"@,
            self.exclude_file_names,
        ) + tag_query("-@primary_genre"@, self.exclude_primary_genres) + tag_query(
            "-@secondary_genre"@,
            self.exclude_secondary_genres,
        ) + tag_query("-@language"@, self.exclude_languages)
    }

    /// The query as written: all clauses, each followed by a space, but
    /// without the space at the very end.
    pub open spec fn ft_search_query(self) -> Seq<char> {
        without_final_space(self.scalar_clauses() + self.include_clauses() + self.exclude_clauses())
    }
}

impl AlbumSearchQuery {
    /// The query that restricts nothing but duplicates, in contracts.
    pub open spec fn new_spec() -> AlbumSearchQueryView {
        AlbumSearchQueryView {
            text: None,
            exact_name: None,
            include_file_names: Seq::empty(),
            exclude_file_names: Seq::empty(),
            include_artists: Seq::empty(),
            exclude_artists: Seq::empty(),
            include_primary_genres: Seq::empty(),
            exclude_primary_genres: Seq::empty(),
            include_secondary_genres: Seq::empty(),
            exclude_secondary_genres: Seq::empty(),
            include_languages: Seq::empty(),
            exclude_languages: Seq::empty(),
            include_descriptors: Seq::empty(),
            min_primary_genre_count: None,
            min_secondary_genre_count: None,
            min_descriptor_count: None,
            min_release_year: None,
            max_release_year: None,
            include_duplicates: None,
        }
    }

    /// The query that restricts nothing but duplicates.
    pub fn new() -> (query: Self)
        ensures
            query@ == Self::new_spec(),
    {
        let query = AlbumSearchQuery {
            text: None,
            exact_name: None,
            include_file_names: Vec::new(),
            exclude_file_names: Vec::new(),
            include_artists: Vec::new(),
            exclude_artists: Vec::new(),
            include_primary_genres: Vec::new(),
            exclude_primary_genres: Vec::new(),
            include_secondary_genres: Vec::new(),
            exclude_secondary_genres: Vec::new(),
            include_languages: Vec::new(),
            exclude_languages: Vec::new(),
            include_descriptors: Vec::new(),
            min_primary_genre_count: None,
            min_secondary_genre_count: None,
            min_descriptor_count: None,
            min_release_year: None,
            max_release_year: None,
            include_duplicates: None,
        };
        assert(query@.include_file_names =~= Seq::empty());
        assert(query@.exclude_file_names =~= Seq::empty());
        assert(query@.include_artists =~= Seq::empty());
        assert(query@.exclude_artists =~= Seq::empty());
        assert(query@.include_primary_genres =~= Seq::empty());
        assert(query@.exclude_primary_genres =~= Seq::empty());
        assert(query@.include_secondary_genres =~= Seq::empty());
        assert(query@.exclude_secondary_genres =~= Seq::empty());
        assert(query@.include_languages =~= Seq::empty());
        assert(query@.exclude_languages =~= Seq::empty());
        assert(query@.include_descriptors =~= Seq::empty());
        query
    }

    fn text_clause(&self) -> (clause: String)
        ensures
            clause@ == text_query(self@.text),
    {
        let mut clause = String::new();
        match &self.text {
            Some(text) => {
                push_text(&mut clause, "(");
                push_escaped(&mut clause, text.as_str(), false);
                push_text(&mut clause, ") ");
                assert(clause@ =~= "("@ + escaped(text@, false) + ") "@);
            },
            None => {},
        }
        clause
    }

    fn exact_name_clause(&self) -> (clause: String)
        ensures
            clause@ == self@.exact_name_clause(),
    {
        match &self.exact_name {
            Some(name) => {
                let mut names: Vec<String> = Vec::new();
                names.push(name.clone());
                assert(names.deep_view() =~= seq![name@]);
                get_tag_query("@name_tag", &names)
            },
            None => String::new(),
        }
    }

    fn duplicates_clause(&self) -> (clause: String)
        ensures
            clause@ == self@.duplicates_clause(),
    {
        let wanted = match self.include_duplicates {
            Some(b) => b,
            None => false,
        };
        if wanted {
            String::new()
        } else {
            get_num_range_query("@is_duplicate", Some(0), Some(0))
        }
    }

    fn scalar_clauses(&self) -> (clauses: String)
        ensures
            clauses@ == self@.scalar_clauses(),
    {
        let mut clauses = self.text_clause();
        let clause = self.exact_name_clause();
        push_text(&mut clauses, clause.as_str());
        let clause = self.duplicates_clause();
        push_text(&mut clauses, clause.as_str());
        let clause = get_min_num_query("@primary_genre_count", self.min_primary_genre_count);
        push_text(&mut clauses, clause.as_str());
        let clause = get_min_num_query("@secondary_genre_count", self.min_secondary_genre_count);
        push_text(&mut clauses, clause.as_str());
        let clause = get_min_num_query("@descriptor_count", self.min_descriptor_count);
        push_text(&mut clauses, clause.as_str());
        let clause = get_num_range_query(
            "@release_year",
            self.min_release_year,
            self.max_release_year,
        );
        push_text(&mut clauses, clause.as_str());
        clauses
    }

    fn include_clauses(&self) -> (clauses: String)
        ensures
            clauses@ == self@.include_clauses(),
    {
        let names = file_names_text(&self.include_file_names);
        let mut clauses = get_tag_query("@file_name", &names);
        let clause = get_tag_query("@artist_file_name", &self.include_artists);
        push_text(&mut clauses, clause.as_str());
        let clause = get_tag_query("@primary_genre", &self.include_primary_genres);
        push_text(&mut clauses, clause.as_str());
        let clause = get_tag_query("@secondary_genre", &self.include_secondary_genres);
        push_text(&mut clauses, clause.as_str());
        let clause = get_tag_query("@language", &self.include_languages);
        push_text(&mut clauses, clause.as_str());
        let clause = get_tag_query("@descriptor", &self.include_descriptors);
        push_text(&mut clauses, clause.as_str());
        clauses
    }

    fn exclude_clauses(&self) -> (clauses: String)
        ensures
            clauses@ == self@.exclude_clauses(),
    {
        let mut clauses = get_tag_query("-@artist_file_name", &self.exclude_artists);
        let names = file_names_text(&self.exclude_file_names);
        let clause = get_tag_query("-@file_name", &names);
        push_text(&mut clauses, clause.as_str());
        let clause = get_tag_query("-@primary_genre", &self.exclude_primary_genres);
        push_text(&mut clauses, clause.as_str());
        let clause = get_tag_query("-@secondary_genre", &self.exclude_secondary_genres);
        push_text(&mut clauses, clause.as_str());
        let clause = get_tag_query("-@language", &self.exclude_languages);
        push_text(&mut clauses, clause.as_str());
        clauses
    }

    /// The query in the index's query language.
    pub fn to_ft_search_query(&self) -> (query: String)
        ensures
            query@ == self@.ft_search_query(),
    {
        let mut all = self.scalar_clauses();
        let clauses = self.include_clauses();
        push_text(&mut all, clauses.as_str());
        let clauses = self.exclude_clauses();
        push_text(&mut all, clauses.as_str());
        let chars = to_chars(all.as_str());
        if chars.len() > 0 && chars[chars.len() - 1] == ' ' {
            let query = string_of(&chars, 0, chars.len() - 1);
            assert(query@ =~= all@.drop_last());
            query
        } else {
            all
        }
    }
}

/// A search for the albums whose embedding lies nearest to a given one.
#[derive(Debug)]
pub struct AlbumEmbeddingSimilarirtySearchQuery {
    /// The vector to compare with, each component as the bit pattern of a
    /// 32-bit float.
    pub embedding: Vec<u32>,
    pub embedding_key: String,
    pub filters: AlbumSearchQuery,
    pub limit: usize,
}

/// The nearest-neighbour query for an embedding key, filters and limit.
pub open spec fn knn_query(embedding_key: Seq<char>, filters: Seq<char>, limit: nat) -> Seq<char> {
    "("@ + tag_query("@embedding_key"@, seq![embedding_key]) + " "@ + filters + ")=>[KNN "@
        + decimal(limit) + " @embedding $BLOB as distance]"@
}

impl AlbumEmbeddingSimilarirtySearchQuery {
    /// The query in the index's query language: the filters narrowed to
    /// the embedding key, then the nearest `limit` by distance.
    pub fn to_ft_search_query(&self) -> (query: String)
        ensures
            query@ == knn_query(
                self.embedding_key@,
                self.filters@.ft_search_query(),
                self.limit as nat,
            ),
    {
        let mut keys: Vec<String> = Vec::new();
        keys.push(self.embedding_key.clone());
        assert(keys.deep_view() =~= seq![self.embedding_key@]);
        let key_clause = get_tag_query("@embedding_key", &keys);
        let filters = self.filters.to_ft_search_query();
        let mut query = String::new();
        push_text(&mut query, "(");
        push_text(&mut query, key_clause.as_str());
        push_text(&mut query, " ");
        push_text(&mut query, filters.as_str());
        push_text(&mut query, ")=>[KNN ");
        push_decimal(&mut query, self.limit as u64);
        push_text(&mut query, " @embedding $BLOB as distance]");
        assert(query@ =~= knn_query(
            self.embedding_key@,
            self.filters@.ft_search_query(),
            self.limit as nat,
        ));
        query
    }
}

/// How the index reads an attribute of a document.
#[derive(Clone, Copy, Debug, PartialEq, Eq, Structural)]
pub enum IndexFieldType {
    /// Tokenized text, for free-text search.
    Text,
    /// A value matched as a whole.
    Tag,
    /// A number, for ranges.
    Numeric,
    /// An embedding: a flat index of 32-bit floats in 1536 dimensions,
    /// compared by cosine distance.
    Vector,
}

/// An attribute of the album index: where it is read in a document, under
/// which name it is queried, and how it is read.
#[derive(Debug)]
pub struct IndexField {
    pub identifier: String,
    pub attribute: String,
    pub field_type: IndexFieldType,
}

/// How an `IndexField` looks in contracts.
pub struct IndexFieldView {
    pub identifier: Seq<char>,
    pub attribute: Seq<char>,
    pub field_type: IndexFieldType,
}

impl View for IndexField {
    type V = IndexFieldView;

    open spec fn view(&self) -> IndexFieldView {
        IndexFieldView {
            identifier: self.identifier@,
            attribute: self.attribute@,
            field_type: self.field_type,
        }
    }
}

/// An attribute of the index, in contracts.
pub open spec fn index_field(
    identifier: Seq<char>,
    attribute: Seq<char>,
    field_type: IndexFieldType,
) -> IndexFieldView {
    IndexFieldView { identifier, attribute, field_type }
}

/// The attributes of the album index, in the order in which they are
/// declared.
pub open spec fn album_index_fields() -> Seq<IndexFieldView> {
    seq![
        index_field("$.name"@, "name"@, IndexFieldType::Text),
        index_field("$.file_name"@, "file_name"@, IndexFieldType::Tag),
        index_field("$.artists[*].name"@, "artist_name"@, IndexFieldType::Text),
        index_field("$.artists[*].file_name"@, "artist_file_name"@, IndexFieldType::Tag),
        index_field("$.rating"@, "rating"@, IndexFieldType::Numeric),
        index_field("$.rating_count"@, "rating_count"@, IndexFieldType::Numeric),
        index_field("$.primary_genres.*"@, "primary_genre"@, IndexFieldType::Tag),
        index_field("$.primary_genre_count"@, "primary_genre_count"@, IndexFieldType::Numeric),
        index_field("$.secondary_genres.*"@, "secondary_genre"@, IndexFieldType::Tag),
        index_field("$.secondary_genre_count"@, "secondary_genre_count"@, IndexFieldType::Numeric),
        index_field("$.descriptors.*"@, "descriptor"@, IndexFieldType::Tag),
        index_field("$.descriptor_count"@, "descriptor_count"@, IndexFieldType::Numeric),
        index_field("$.release_year"@, "release_year"@, IndexFieldType::Numeric),
        index_field("$.languages.*"@, "language"@, IndexFieldType::Tag),
        index_field("$.language_count"@, "language_count"@, IndexFieldType::Numeric),
        index_field("$.embeddings..key"@, "embedding_key"@, IndexFieldType::Tag),
        index_field("$.embeddings..embedding"@, "embedding"@, IndexFieldType::Vector),
        index_field("$.is_duplicate"@, "is_duplicate"@, IndexFieldType::Numeric),
        index_field("$.name_tag"@, "name_tag"@, IndexFieldType::Tag),
    ]
}

fn field(identifier: &str, attribute: &str, field_type: IndexFieldType) -> (declared: IndexField)
    ensures
        declared@ == index_field(identifier@, attribute@, field_type),
{
    let mut path = String::new();
    push_text(&mut path, identifier);
    assert(path@ =~= identifier@);
    let mut name = String::new();
    push_text(&mut name, attribute);
    assert(name@ =~= attribute@);
    IndexField { identifier: path, attribute: name, field_type }
}

/// The name of the album index.
pub fn index_name() -> (name: &'static str)
    ensures
        name@ == "album_idx"@,
{
    "album_idx"
}

/// The prefix of the keys of the documents that the index covers.
pub fn index_prefix() -> (prefix: &'static str)
    ensures
        prefix@ == "album:"@,
{
    "album:"
}

/// The attributes to declare when the album index is set up.
pub fn album_index_schema() -> (fields: Vec<IndexField>)
    ensures
        fields@.map_values(|f: IndexField| f@) == album_index_fields(),
{
    let mut fields: Vec<IndexField> = Vec::new();
    fields.push(field("$.name", "name", IndexFieldType::Text));
    fields.push(field("$.file_name", "file_name", IndexFieldType::Tag));
    fields.push(field("$.artists[*].name", "artist_name", IndexFieldType::Text));
    fields.push(field("$.artists[*].file_name", "artist_file_name", IndexFieldType::Tag));
    fields.push(field("$.rating", "rating", IndexFieldType::Numeric));
    fields.push(field("$.rating_count", "rating_count", IndexFieldType::Numeric));
    fields.push(field("$.primary_genres.*", "primary_genre", IndexFieldType::Tag));
    fields.push(field("$.primary_genre_count", "primary_genre_count", IndexFieldType::Numeric));
    fields.push(field("$.secondary_genres.*", "secondary_genre", IndexFieldType::Tag));
    fields.push(field("$.secondary_genre_count", "secondary_genre_count", IndexFieldType::Numeric));
    fields.push(field("$.descriptors.*", "descriptor", IndexFieldType::Tag));
    fields.push(field("$.descriptor_count", "descriptor_count", IndexFieldType::Numeric));
    fields.push(field("$.release_year", "release_year", IndexFieldType::Numeric));
    fields.push(field("$.languages.*", "language", IndexFieldType::Tag));
    fields.push(field("$.language_count", "language_count", IndexFieldType::Numeric));
    fields.push(field("$.embeddings..key", "embedding_key", IndexFieldType::Tag));
    fields.push(field("$.embeddings..embedding", "embedding", IndexFieldType::Vector));
    fields.push(field("$.is_duplicate", "is_duplicate", IndexFieldType::Numeric));
    fields.push(field("$.name_tag", "name_tag", IndexFieldType::Tag));
    assert(fields@.map_values(|f: IndexField| f@) =~= album_index_fields());
    fields
}

/// The store key of an album's document.
pub fn redis_key(file_name: &FileName) -> (key: String)
    ensures
        key@ == "album:"@ + file_name@,
{
    let mut key = String::new();
    push_text(&mut key, "album:");
    push_text(&mut key, file_name.as_str());
    assert(key@ =~= "album:"@ + file_name@);
    key
}

} // verus!

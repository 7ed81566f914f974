//! The entity model and the record transformer: a raw backend record is
//! normalized into an `Item` whose sections are exactly its
//! password-bearing fields, in source order.
use vstd::prelude::*;

use crate::text::{chars_contain, seq_contains, str_to_chars};

verus! {

broadcast use vstd::seq_lib::group_filter_ensures;

/// Explicit section descriptor carried by a raw field.
#[derive(Debug)]
pub struct SectionRaw {
    pub label: String,
}

/// One field of a raw backend record.
#[derive(Debug)]
pub struct Field {
    /// Opaque locator used to fetch the secret value later.
    pub reference: String,
    pub label: String,
    pub section: Option<SectionRaw>,
}

/// One raw backend record, as plain values.
#[derive(Debug)]
pub struct ItemRaw {
    pub title: String,
    pub tags: Vec<String>,
    pub fields: Vec<Field>,
}

/// One password-bearing field extracted from a record: a display title
/// and the opaque locator of its secret.
#[derive(Debug)]
pub struct Section {
    pub title: String,
    pub reference: String,
}

/// A normalized, searchable entity built from one raw record.
#[derive(Debug)]
pub struct Item {
    pub title: String,
    pub tags: Vec<String>,
    pub sections: Vec<Section>,
}

/// One entry of the backend's listing output.
#[derive(Debug)]
pub struct OpItemSummary {
    pub id: String,
    pub title: String,
}

/// Mathematical model of a raw field.
#[verifier::ext_equal]
pub struct FieldModel {
    pub reference: Seq<char>,
    pub label: Seq<char>,
    pub section: Option<Seq<char>>,
}

/// Mathematical model of a raw record.
#[verifier::ext_equal]
pub struct ItemRawModel {
    pub title: Seq<char>,
    pub tags: Seq<Seq<char>>,
    pub fields: Seq<FieldModel>,
}

/// Mathematical model of a section.
#[verifier::ext_equal]
pub struct SectionModel {
    pub title: Seq<char>,
    pub reference: Seq<char>,
}

/// Mathematical model of an entity.
#[verifier::ext_equal]
pub struct ItemModel {
    pub title: Seq<char>,
    pub tags: Seq<Seq<char>>,
    pub sections: Seq<SectionModel>,
}

impl View for Field {
    type V = FieldModel;

    open spec fn view(&self) -> FieldModel {
        FieldModel {
            reference: self.reference@,
            label: self.label@,
            section: match self.section {
                Some(s) => Some(s.label@),
                None => None,
            },
        }
    }
}

impl View for ItemRaw {
    type V = ItemRawModel;

    open spec fn view(&self) -> ItemRawModel {
        ItemRawModel {
            title: self.title@,
            tags: self.tags.deep_view(),
            fields: Seq::new(self.fields@.len(), |i: int| self.fields@[i]@),
        }
    }
}

impl View for Section {
    type V = SectionModel;

    open spec fn view(&self) -> SectionModel {
        SectionModel { title: self.title@, reference: self.reference@ }
    }
}

impl View for Item {
    type V = ItemModel;

    open spec fn view(&self) -> ItemModel {
        ItemModel {
            title: self.title@,
            tags: self.tags.deep_view(),
            sections: Seq::new(self.sections@.len(), |i: int| self.sections@[i]@),
        }
    }
}

/// The models of a sequence of sections, elementwise.
pub open spec fn sections_model(s: Seq<Section>) -> Seq<SectionModel> {
    Seq::new(s.len(), |i: int| s[i]@)
}

/// The models of a sequence of entities, elementwise.
pub open spec fn items_model(s: Seq<Item>) -> Seq<ItemModel> {
    Seq::new(s.len(), |i: int| s[i]@)
}

/// The marker substring that identifies a password-class field: a field
/// is retained exactly when its reference contains these characters.
pub open spec fn password_marker() -> Seq<char> {
    seq!['p', 'a', 's', 's', 'w', 'o', 'r', 'd']
}

/// A field is password-class when its reference contains the marker.
pub open spec fn is_password_field(f: FieldModel) -> bool {
    seq_contains(f.reference, password_marker())
}

/// The section built from one retained field: the explicit section label
/// when there is one, else the owning record's title.
pub open spec fn section_of_field(record_title: Seq<char>, f: FieldModel) -> SectionModel {
    SectionModel {
        title: match f.section {
            Some(label) => label,
            None => record_title,
        },
        reference: f.reference,
    }
}

/// The password-field test, as a closure value usable with `filter`.
pub open spec fn password_pred() -> spec_fn(FieldModel) -> bool {
    |f: FieldModel| is_password_field(f)
}

/// The section builder for a record title, as a closure value usable
/// with `map_values`.
pub open spec fn section_builder(record_title: Seq<char>) -> spec_fn(FieldModel) -> SectionModel {
    |f: FieldModel| section_of_field(record_title, f)
}

/// What the transformer produces from one raw record: title and tags are
/// kept, and the sections are exactly the password-class fields, in
/// source order, each with its computed title.
pub open spec fn transform(raw: ItemRawModel) -> ItemModel {
    ItemModel {
        title: raw.title,
        tags: raw.tags,
        sections: raw.fields.filter(password_pred()).map_values(section_builder(raw.title)),
    }
}

/// The marker, as an executable vector.
fn password_marker_chars() -> (r: Vec<char>)
    ensures
        r@ == password_marker(),
{
    let r = vec!['p', 'a', 's', 's', 'w', 'o', 'r', 'd'];
    proof {
        assert(r@ =~= password_marker());
    }
    r
}

/// Whether a field reference contains the password marker.
pub fn reference_has_marker(s: &str) -> (b: bool)
    ensures
        b == seq_contains(s@, password_marker()),
{
    let hay = str_to_chars(s);
    let marker = password_marker_chars();
    chars_contain(&hay, &marker)
}

proof fn lemma_filter_map_step(
    fields: Seq<FieldModel>,
    title: Seq<char>,
    i: int,
)
    requires
        0 <= i < fields.len(),
    ensures
        ({
            let pred = password_pred();
            let mk = section_builder(title);
            if is_password_field(fields[i]) {
                fields.take(i + 1).filter(pred).map_values(mk) =~= fields.take(i).filter(
                    pred,
                ).map_values(mk).push(section_of_field(title, fields[i]))
            } else {
                fields.take(i + 1).filter(pred).map_values(mk) =~= fields.take(i).filter(
                    pred,
                ).map_values(mk)
            }
        }),
{
    let pred = password_pred();
    let mk = section_builder(title);
    assert(fields.take(i + 1) =~= fields.take(i) + seq![fields[i]]);
    Seq::filter_distributes_over_add(fields.take(i), seq![fields[i]], pred);
    reveal_with_fuel(Seq::filter, 2);
    let single = seq![fields[i]];
    assert(single.drop_last() =~= Seq::<FieldModel>::empty());
    if pred(fields[i]) {
        assert(single.filter(pred) =~= seq![fields[i]]);
    } else {
        assert(single.filter(pred) =~= Seq::<FieldModel>::empty());
    }
}

impl Item {
    /// Transforms one raw record into an entity: fields whose reference
    /// contains the password marker become sections, in source order;
    /// each section's title is the field's explicit section label or,
    /// absent one, the record's title.
    pub fn from_raw(raw: ItemRaw) -> (r: Item)
        ensures
            r@ == transform(raw@),
    {
        let ghost pred = password_pred();
        let ghost mk = section_builder(raw@.title);
        let mut sections: Vec<Section> = Vec::new();
        let n = raw.fields.len();
        proof {
            reveal_with_fuel(Seq::filter, 2);
            assert(raw@.fields.take(0) =~= Seq::<FieldModel>::empty());
            assert(raw@.fields.take(0).filter(pred) =~= Seq::<FieldModel>::empty());
            assert(Seq::new(sections@.len(), |j: int| sections@[j]@) =~= raw@.fields.take(
                0,
            ).filter(pred).map_values(mk));
        }
        for i in 0..n
            invariant
                pred == password_pred(),
                mk == section_builder(raw@.title),
                n == raw.fields@.len(),
                raw@.fields.len() == n,
                forall|k: int| 0 <= k < n ==> raw@.fields[k] == raw.fields@[k]@,
                Seq::new(sections@.len(), |j: int| sections@[j]@) =~= raw@.fields.take(
                    i as int,
                ).filter(pred).map_values(mk),
        {
            let field = &raw.fields[i];
            if reference_has_marker(field.reference.as_str()) {
                let section_title = match &field.section {
                    Some(section) => section.label.clone(),
                    None => raw.title.clone(),
                };
                sections.push(Section { title: section_title, reference: field.reference.clone() });
                proof {
                    assert(is_password_field(raw@.fields[i as int]));
                    lemma_filter_map_step(raw@.fields, raw@.title, i as int);
                    assert(sections@.last()@ == section_of_field(raw@.title, raw@.fields[i as int]));
                    assert(Seq::new(sections@.len(), |j: int| sections@[j]@) =~= raw@.fields.take(
                        i + 1,
                    ).filter(pred).map_values(mk));
                }
            } else {
                proof {
                    assert(!is_password_field(raw@.fields[i as int]));
                    lemma_filter_map_step(raw@.fields, raw@.title, i as int);
                    assert(Seq::new(sections@.len(), |j: int| sections@[j]@) =~= raw@.fields.take(
                        i + 1,
                    ).filter(pred).map_values(mk));
                }
            }
        }
        proof {
            assert(raw@.fields.take(n as int) =~= raw@.fields);
        }
        let r = Item { title: raw.title, tags: raw.tags, sections };
        proof {
            assert(r@.sections =~= transform(raw@).sections);
            assert(r@ =~= transform(raw@));
        }
        r
    }
}

impl Section {
    /// The searchable text of this candidate: its title.
    pub fn text(&self) -> (r: &String)
        ensures
            r@ == self@.title,
    {
        &self.title
    }

    /// The opaque payload of this candidate: its secret reference.
    pub fn output(&self) -> (r: &String)
        ensures
            r@ == self@.reference,
    {
        &self.reference
    }
}

/// Section `j` of the transformed record equals the section computed
/// from some password-class field of the source record.
pub open spec fn section_has_source_field(raw: ItemRawModel, j: int) -> bool {
    exists|i: int|
        0 <= i < raw.fields.len() && is_password_field(#[trigger] raw.fields[i]) && transform(
            raw,
        ).sections[j] == section_of_field(raw.title, raw.fields[i])
}

/// Every section the transformer produces comes from exactly one
/// password-class field: its reference contains the marker, and it equals
/// the section computed from some retained source field.  Fields without
/// the marker never contribute a section, and the section count is the
/// count of password-class fields.
pub proof fn lemma_transform_only_password_fields(raw: ItemRawModel)
    ensures
        transform(raw).sections.len() == raw.fields.filter(password_pred()).len(),
        forall|j: int| 0 <= j < transform(raw).sections.len() ==> seq_contains(
            #[trigger] transform(raw).sections[j].reference,
            password_marker(),
        ),
        forall|j: int|
            0 <= j < transform(raw).sections.len() ==> #[trigger] section_has_source_field(raw, j),
{
    let pred = password_pred();
    let filtered = raw.fields.filter(pred);
    assert forall|j: int| 0 <= j < transform(raw).sections.len() implies seq_contains(
        #[trigger] transform(raw).sections[j].reference,
        password_marker(),
    ) by {
        Seq::lemma_filter_pred(raw.fields, pred, j);
    }
    assert forall|j: int| 0 <= j < transform(raw).sections.len() implies
        #[trigger] section_has_source_field(raw, j) by {
        Seq::lemma_filter_pred(raw.fields, pred, j);
        assert(filtered.contains(filtered[j]));
        Seq::lemma_filter_contains_rev(raw.fields, pred, filtered[j]);
        let i = choose|i: int| 0 <= i < raw.fields.len() && raw.fields[i] == filtered[j];
        assert(0 <= i < raw.fields.len() && is_password_field(raw.fields[i]) && transform(
            raw,
        ).sections[j] == section_of_field(raw.title, raw.fields[i]));
    }
}

/// Section title fallback: with no explicit section descriptor the
/// section takes the owning record's title; with one, it takes that
/// descriptor's label.
pub proof fn lemma_section_title_fallback(record_title: Seq<char>, f: FieldModel)
    ensures
        f.section is None ==> section_of_field(record_title, f).title == record_title,
        f.section is Some ==> section_of_field(record_title, f).title == f.section->0,
{
}

} // verus!

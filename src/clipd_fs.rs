//! The manifest of a container kept on disk: its items, newest first, and
//! the aliases that point at them.
use crate::container::Error;
use crate::util::{preview, preview_of, truncate_utf8, truncated};
use vstd::prelude::*;
use vstd::string::StringSliceAdditionalSpecFns;
use vstd::utf8::encode_utf8;

verus! {

/// Relies on uuid::Uuid::new_v4 and Uuid's Display impl: a random
/// version-4 identifier in its hyphenated form, 36 characters long.
#[verifier::external_body]
fn new_uuid() -> (r: String)
    ensures
        r@.len() == 36,
{
    uuid::Uuid::new_v4().to_string()
}

/// The text that the table renderer makes of a header and rows.
pub uninterp spec fn table_of(header: Seq<Seq<char>>, rows: Seq<Seq<Seq<char>>>) -> Seq<char>;

/// Relies on tabled's `Builder`: a table of `rows` under `header`, with an
/// index column, drawn in the rounded style. The text depends on its
/// arguments alone.
#[verifier::external_body]
fn render_table(header: Vec<String>, rows: Vec<Vec<String>>) -> (r: String)
    ensures
        r@ == table_of(header.deep_view(), rows.deep_view()),
{
    let mut builder = tabled::builder::Builder::from_iter(rows);
    builder.set_columns(header);
    builder.index().build().with(tabled::Style::rounded()).to_string()
}

/// The text that `{:?}` makes of a list of strings.
pub uninterp spec fn debug_of(keys: Seq<Seq<char>>) -> Seq<char>;

/// Relies on the `Debug` impl of `Vec<String>`: the list written with
/// brackets and quoted entries; the text depends on the entries alone.
#[verifier::external_body]
fn debug_list(keys: &Vec<String>) -> (r: String)
    ensures
        r@ == debug_of(keys.deep_view()),
{
    format!("{:?}", keys)
}

/// How many bytes of an identifier `show` displays.
pub const ID_PREFIX: usize = 8;

/// How many bytes of a value `show` displays before the ellipsis.
pub const PREVIEW_LIMIT: usize = 32;

/// The directory of the container `name` under the base directory `root`.
pub open spec fn path_of(root: Seq<char>, name: Seq<char>) -> Seq<char> {
    root + "/"@ + name
}

/// The manifest file of the container `name` under `root`.
pub open spec fn config_path_of(root: Seq<char>, name: Seq<char>) -> Seq<char> {
    path_of(root, name) + "/config.toml"@
}

/// The file that holds the value of the item `id` of the container `name`.
pub open spec fn blob_path_of(root: Seq<char>, name: Seq<char>, id: Seq<char>) -> Seq<char> {
    path_of(root, name) + "/"@ + id
}

/// The directory of the container `name` under `root`.
pub fn path(root: &str, name: &str) -> (r: String)
    ensures
        r@ == path_of(root@, name@),
{
    let mut r = root.to_owned();
    r.append("/");
    r.append(name);
    r
}

/// The manifest file of the container `name` under `root`.
pub fn config_path(root: &str, name: &str) -> (r: String)
    ensures
        r@ == config_path_of(root@, name@),
{
    let mut r = path(root, name);
    r.append("/config.toml");
    r
}

/// One row of `show`: the identifier's first bytes, the aliases and a
/// preview of the value.
pub open spec fn row_of(item: ItemView, value: Seq<char>) -> Seq<Seq<char>> {
    seq![
        truncated(item.id, ID_PREFIX as int),
        debug_of(item.keys),
        preview_of(value, PREVIEW_LIMIT as int),
    ]
}

/// The column titles of `show`.
pub open spec fn header_of() -> Seq<Seq<char>> {
    seq!["ID"@, "Custom Keys"@, "Value"@]
}

/// What an item is, as the contracts see it.
pub ghost struct ItemView {
    pub id: Seq<char>,
    pub keys: Seq<Seq<char>>,
}

/// One entry of the history: the identifier of its stored value and the
/// aliases it was added under.
#[derive(Debug)]
pub struct Item {
    pub uuid: String,
    pub custom_keys: Vec<String>,
}

impl View for Item {
    type V = ItemView;

    open spec fn view(&self) -> ItemView {
        ItemView { id: self.uuid@, keys: self.custom_keys.deep_view() }
    }
}

/// The aliases that an `add` given `key` attaches to its item.
pub open spec fn keys_of(key: Option<Seq<char>>) -> Seq<Seq<char>> {
    match key {
        Some(k) => seq![k],
        None => Seq::empty(),
    }
}

/// An identifier result, with the identifier as characters.
pub open spec fn id_result(r: Result<String, Error>) -> Result<Seq<char>, Error> {
    match r {
        Ok(id) => Ok(id@),
        Err(e) => Err(e),
    }
}

/// An optional key, as characters.
pub open spec fn opt_view(key: Option<String>) -> Option<Seq<char>> {
    match key {
        Some(k) => Some(k@),
        None => None,
    }
}

impl Item {
    /// A fresh item under a newly drawn identifier, with the given aliases.
    pub fn new(key: Option<Vec<String>>) -> (r: Item)
        ensures
            r@.id.len() == 36,
            r@.keys == match key {
                Some(ks) => ks.deep_view(),
                None => Seq::empty(),
            },
    {
        let keys = match key {
            Some(ks) => ks,
            None => Vec::new(),
        };
        Item { uuid: new_uuid(), custom_keys: keys }
    }
}

/// The identifier that `key` is bound to in an alias list: the last binding
/// of `key` wins.
pub open spec fn alias_in(pairs: Seq<(String, String)>, key: Seq<char>) -> Option<Seq<char>>
    decreases pairs.len(),
{
    if pairs.len() == 0 {
        None
    } else if pairs.last().0@ == key {
        Some(pairs.last().1@)
    } else {
        alias_in(pairs.drop_last(), key)
    }
}

/// An ASCII decimal digit.
pub open spec fn is_digit(b: u8) -> bool {
    48 <= b <= 57
}

/// The number that a sequence of ASCII decimal digits spells.
pub open spec fn digits_value(d: Seq<u8>) -> int
    decreases d.len(),
{
    if d.len() == 0 {
        0
    } else {
        10 * digits_value(d.drop_last()) + (d.last() - 48)
    }
}

/// The bytes of a number once an optional leading `+` is dropped.
pub open spec fn unsigned_digits(b: Seq<u8>) -> Seq<u8> {
    if b.len() > 0 && b[0] == 43 {
        b.drop_first()
    } else {
        b
    }
}

/// The position that a key's bytes name, if they read as a decimal `usize`
/// (an optional `+`, then at least one digit, with a value that fits).
pub open spec fn index_of(b: Seq<u8>) -> Option<int> {
    let d = unsigned_digits(b);
    if d.len() > 0 && (forall|i: int| 0 <= i < d.len() ==> is_digit(#[trigger] d[i]))
        && digits_value(d) <= usize::MAX {
        Some(digits_value(d))
    } else {
        None
    }
}

/// Reads `s` as a decimal `usize`, as `str::parse::<usize>` does.
pub fn parse_index(s: &str) -> (r: Option<usize>)
    ensures
        r matches Some(n) ==> index_of(s.spec_bytes()) == Some(n as int),
        r is None ==> index_of(s.spec_bytes()) is None,
{
    let b = s.as_bytes();
    let n = b.len();
    let mut start: usize = 0;
    if n > 0 && b[0] == 43 {
        start = 1;
    }
    let ghost d = unsigned_digits(b@);
    assert(d == b@.subrange(start as int, n as int));
    if start >= n {
        return None;
    }
    let mut acc: usize = 0;
    let mut over = false;
    let mut i: usize = start;
    while i < n
        invariant
            n == b@.len(),
            b@ == s.spec_bytes(),
            d == unsigned_digits(b@),
            d == b@.subrange(start as int, n as int),
            start <= i <= n,
            forall|j: int| start <= j < i ==> is_digit(#[trigger] b@[j]),
            !over ==> acc == digits_value(b@.subrange(start as int, i as int)),
            over ==> digits_value(b@.subrange(start as int, i as int)) > usize::MAX,
        decreases n - i,
    {
        let c = b[i];
        if c < 48 || c > 57 {
            assert(!is_digit(d[i - start]));
            return None;
        }
        let digit = (c - 48) as usize;
        let ghost prev = digits_value(b@.subrange(start as int, i as int));
        assert(b@.subrange(start as int, i + 1).drop_last() == b@.subrange(start as int, i as int));
        assert(digits_value(b@.subrange(start as int, i + 1)) == 10 * prev + digit);
        if over {
            assert(10 * prev + digit > usize::MAX) by (nonlinear_arith)
                requires
                    prev > usize::MAX,
                    digit >= 0,
            ;
        } else if acc > (usize::MAX - digit) / 10 {
            assert(10 * prev + digit > usize::MAX) by (nonlinear_arith)
                requires
                    prev == acc,
                    acc > (usize::MAX - digit) / 10,
                    0 <= digit <= 9,
            ;
            over = true;
        } else {
            assert(10 * acc + digit <= usize::MAX) by (nonlinear_arith)
                requires
                    acc <= (usize::MAX - digit) / 10,
                    0 <= digit <= 9,
            ;
            acc = 10 * acc + digit;
        }
        i = i + 1;
    }
    assert(b@.subrange(start as int, n as int) == d);
    if over {
        None
    } else {
        Some(acc)
    }
}

/// The metadata of one named container.
#[derive(Debug)]
pub struct Container {
    pub name: String,
    /// How many values were ever added.
    pub count: u32,
    /// The items, most recent first.
    pub ordered_items: Vec<Item>,
    /// Alias to item identifier; each alias occurs once.
    pub custom_keys: Vec<(String, String)>,
}

impl Container {
    /// The items, most recent first.
    pub open spec fn items(&self) -> Seq<ItemView> {
        self.ordered_items@.map_values(|i: Item| i@)
    }

    /// The identifier that the alias `key` names, if any.
    pub open spec fn alias(&self, key: Seq<char>) -> Option<Seq<char>> {
        alias_in(self.custom_keys@, key)
    }

    /// An empty manifest named `name`.
    pub fn new(name: String) -> (r: Container)
        ensures
            r.name@ == name@,
            r.count == 0,
            r.items().len() == 0,
            forall|k: Seq<char>| r.alias(k) is None,
            r.aliases_resolve(),
    {
        Container { name, count: 0, ordered_items: Vec::new(), custom_keys: Vec::new() }
    }

    /// Every alias names an item that the container holds.
    pub open spec fn aliases_resolve(&self) -> bool {
        forall|k: Seq<char>|
            #![trigger self.alias(k)]
            self.alias(k) is Some ==> exists|i: int|
                0 <= i < self.items().len() && self.items()[i].id == self.alias(k)->0
    }

    /// How many items `show(n)` displays.
    pub open spec fn shown(&self, n: int) -> int {
        if n < self.items().len() {
            n
        } else {
            self.items().len() as int
        }
    }

    /// The rows of `show(n)` for the given values of its items.
    pub open spec fn rows_of(&self, n: int, values: Seq<Seq<char>>) -> Seq<Seq<Seq<char>>> {
        Seq::new(self.shown(n) as nat, |i: int| row_of(self.items()[i], values[i]))
    }

    /// Whether this is the empty manifest of the container `name`.
    pub open spec fn is_fresh(&self, name: Seq<char>) -> bool {
        &&& self.name@ == name
        &&& self.count == 0
        &&& self.items().len() == 0
        &&& forall|k: Seq<char>| self.alias(k) is None
    }

    /// The directory of this container under `root`.
    pub fn path(&self, root: &str) -> (r: String)
        ensures
            r@ == path_of(root@, self.name@),
    {
        path(root, self.name.as_str())
    }

    /// The manifest file of this container under `root`.
    pub fn config_path(&self, root: &str) -> (r: String)
        ensures
            r@ == config_path_of(root@, self.name@),
    {
        config_path(root, self.name.as_str())
    }

    /// The file that holds the value of the item `id`.
    pub fn blob_path(&self, root: &str, id: &str) -> (r: String)
        ensures
            r@ == blob_path_of(root@, self.name@, id@),
    {
        let mut r = self.path(root);
        r.append("/");
        r.append(id);
        r
    }

    /// The identifiers of the items that `show(n)` displays, newest first:
    /// the values to fetch for it.
    pub fn shown_ids(&self, n: usize) -> (r: Vec<String>)
        ensures
            r@.len() == self.shown(n as int),
            forall|i: int| 0 <= i < r@.len() ==> r@[i]@ == self.items()[i].id,
    {
        let len = self.ordered_items.len();
        let count = if n < len {
            n
        } else {
            len
        };
        let mut r: Vec<String> = Vec::new();
        let mut i: usize = 0;
        while i < count
            invariant
                count == self.shown(n as int),
                count <= self.ordered_items@.len(),
                i <= count,
                r@.len() == i,
                forall|j: int| 0 <= j < i ==> r@[j]@ == self.items()[j].id,
            decreases count - i,
        {
            r.push(self.ordered_items[i].uuid.clone());
            i = i + 1;
        }
        r
    }

    /// The rows of `show(n)`, given the values of the items it displays.
    pub fn rows(&self, n: usize, values: &Vec<String>) -> (r: Vec<Vec<String>>)
        requires
            values@.len() == self.shown(n as int),
        ensures
            r.deep_view() == self.rows_of(n as int, values.deep_view()),
            r.deep_view().len() <= n,
    {
        let count = values.len();
        let mut r: Vec<Vec<String>> = Vec::new();
        let mut i: usize = 0;
        while i < count
            invariant
                count == values@.len(),
                count == self.shown(n as int),
                count <= self.ordered_items@.len(),
                i <= count,
                r.deep_view().len() == i,
                forall|j: int|
                    0 <= j < i ==> #[trigger] r.deep_view()[j] == row_of(
                        self.items()[j],
                        values@[j]@,
                    ),
            decreases count - i,
        {
            let item = &self.ordered_items[i];
            let id = truncate_utf8(item.uuid.as_str(), ID_PREFIX).to_owned();
            let keys = debug_list(&item.custom_keys);
            let value = preview(values[i].as_str(), PREVIEW_LIMIT);
            let row = vec![id, keys, value];
            let ghost before = r.deep_view();
            assert(row.deep_view() == row_of(self.items()[i as int], values@[i as int]@));
            r.push(row);
            assert(r.deep_view() == before.push(row.deep_view()));
            i = i + 1;
        }
        assert(r.deep_view() == self.rows_of(n as int, values.deep_view()));
        r
    }

    /// The table that `show(n)` prints, given the values of the items it
    /// displays (see `shown_ids`).
    pub fn show(&self, n: usize, values: &Vec<String>) -> (r: String)
        requires
            values@.len() == self.shown(n as int),
        ensures
            r@ == table_of(header_of(), self.rows_of(n as int, values.deep_view())),
    {
        let header = vec!["ID".to_owned(), "Custom Keys".to_owned(), "Value".to_owned()];
        assert(header.deep_view() == header_of());
        let rows = self.rows(n, values);
        render_table(header, rows)
    }

    /// What a key resolves to: no key means position 0; a key that reads as
    /// a number is a position, newest first; any other key is an alias.
    pub open spec fn resolved(&self, key: Option<Seq<char>>) -> Result<Seq<char>, Error> {
        match key {
            None => self.at(0),
            Some(k) => match index_of(encode_utf8(k)) {
                Some(n) => self.at(n),
                None => match self.alias(k) {
                    Some(id) => Ok(id),
                    None => Err(Error::UnknownKey),
                },
            },
        }
    }

    /// The identifier at position `n`, newest first.
    pub open spec fn at(&self, n: int) -> Result<Seq<char>, Error> {
        if n < self.items().len() {
            Ok(self.items()[n].id)
        } else {
            Err(Error::IndexOutOfRange)
        }
    }

    /// The identifier that the alias `key` is bound to, if any.
    pub fn lookup_alias(&self, key: &String) -> (r: Option<String>)
        ensures
            opt_view(r) == self.alias(key@),
    {
        let mut i: usize = self.custom_keys.len();
        assert(self.custom_keys@.take(i as int) == self.custom_keys@);
        while i > 0
            invariant
                i <= self.custom_keys@.len(),
                self.alias(key@) == alias_in(self.custom_keys@.take(i as int), key@),
            decreases i,
        {
            let ghost prefix = self.custom_keys@.take(i as int);
            assert(prefix.drop_last() == self.custom_keys@.take(i - 1));
            let pair = &self.custom_keys[i - 1];
            if pair.0 == *key {
                return Some(pair.1.clone());
            }
            i = i - 1;
        }
        None
    }

    /// The identifier of the item at position `n`, newest first.
    fn id_at(&self, n: usize) -> (r: Result<String, Error>)
        ensures
            id_result(r) == self.at(n as int),
    {
        if n < self.ordered_items.len() {
            Ok(self.ordered_items[n].uuid.clone())
        } else {
            Err(Error::IndexOutOfRange)
        }
    }

    /// The identifier of the item that `key` names.
    pub fn resolve(&self, key: Option<String>) -> (r: Result<String, Error>)
        ensures
            id_result(r) == self.resolved(opt_view(key)),
    {
        match key {
            None => self.id_at(0),
            Some(k) => match parse_index(k.as_str()) {
                Some(n) => self.id_at(n),
                None => match self.lookup_alias(&k) {
                    Some(id) => Ok(id),
                    None => Err(Error::UnknownKey),
                },
            },
        }
    }

    /// Puts `item` in front, binds each of its aliases to it and counts it.
    pub fn add_item(&mut self, item: Item)
        requires
            old(self).count < u32::MAX,
        ensures
            final(self).items() == seq![item@] + old(self).items(),
            final(self).count == old(self).count + 1,
            final(self).name == old(self).name,
            forall|k: Seq<char>|
                #![trigger final(self).alias(k)]
                item@.keys.contains(k) ==> final(self).alias(k) == Some(item@.id),
            forall|k: Seq<char>|
                #![trigger final(self).alias(k)]
                !item@.keys.contains(k) ==> final(self).alias(k) == old(self).alias(k),
            old(self).aliases_resolve() ==> final(self).aliases_resolve(),
    {
        self.count = self.count + 1;
        let ghost keys = item@.keys;
        let n = item.custom_keys.len();
        let mut j: usize = 0;
        while j < n
            invariant
                n == item.custom_keys.len(),
                keys == item.custom_keys.deep_view(),
                j <= n,
                self.name == old(self).name,
                self.count == old(self).count + 1,
                self.ordered_items == old(self).ordered_items,
                item@.id == item.uuid@,
                forall|i: int| 0 <= i < j ==> self.alias(#[trigger] keys[i]) == Some(item@.id),
                forall|k: Seq<char>|
                    #![trigger self.alias(k)]
                    (forall|i: int| 0 <= i < j ==> keys[i] != k) ==> self.alias(k) == old(
                        self,
                    ).alias(k),
            decreases n - j,
        {
            assert(keys[j as int] == item.custom_keys@[j as int]@);
            self.set_alias(&item.custom_keys[j], &item.uuid);
            j = j + 1;
        }
        assert forall|k: Seq<char>| keys.contains(k) implies self.alias(k) == Some(item@.id) by {
            let w = choose|i: int| 0 <= i < keys.len() && keys[i] == k;
            assert(self.alias(keys[w]) == Some(item@.id));
        }
        assert forall|k: Seq<char>| !keys.contains(k) implies self.alias(k) == old(self).alias(k) by {
            assert forall|i: int| 0 <= i < n implies keys[i] != k by {
                if keys[i] == k {
                    assert(keys.contains(k));
                }
            }
        }
        self.ordered_items.insert(0, item);
        assert(self.items() == seq![item@] + old(self).items());
        proof {
            if old(self).aliases_resolve() {
                assert forall|k: Seq<char>| #[trigger] self.alias(k) is Some implies exists|i: int|
                    0 <= i < self.items().len() && self.items()[i].id == self.alias(k)->0 by {
                    if keys.contains(k) {
                        assert(self.items()[0].id == self.alias(k)->0);
                    } else {
                        assert(old(self).alias(k) is Some);
                        let i = choose|i: int|
                            0 <= i < old(self).items().len() && old(self).items()[i].id == old(
                                self,
                            ).alias(k)->0;
                        assert(self.items()[i + 1] == old(self).items()[i]);
                    }
                }
            }
        }
    }

    /// Adds a new item under a fresh identifier, aliased `key` if given, and
    /// returns that identifier.
    pub fn add(&mut self, key: Option<String>) -> (id: String)
        requires
            old(self).count < u32::MAX,
        ensures
            id@.len() == 36,
            final(self).items() == seq![ItemView { id: id@, keys: keys_of(opt_view(key)) }] + old(
                self,
            ).items(),
            final(self).count == old(self).count + 1,
            final(self).name == old(self).name,
            forall|k: Seq<char>|
                #![trigger final(self).alias(k)]
                opt_view(key) == Some(k) ==> final(self).alias(k) == Some(id@),
            forall|k: Seq<char>|
                #![trigger final(self).alias(k)]
                opt_view(key) != Some(k) ==> final(self).alias(k) == old(self).alias(k),
            old(self).aliases_resolve() ==> final(self).aliases_resolve(),
    {
        let keys = match key {
            Some(k) => Some(vec![k]),
            None => None,
        };
        let item = Item::new(keys);
        let id = item.uuid.clone();
        proof {
            assert(item@.keys == keys_of(opt_view(key)));
            if let Some(k) = opt_view(key) {
                assert(item@.keys[0] == k);
                assert(item@.keys.contains(k));
            }
        }
        self.add_item(item);
        id
    }

    /// Binds `key` to `id`, dropping any earlier binding of `key`.
    fn set_alias(&mut self, key: &String, id: &String)
        ensures
            final(self).alias(key@) == Some(id@),
            forall|k: Seq<char>| k != key@ ==> final(self).alias(k) == old(self).alias(k),
            final(self).name == old(self).name,
            final(self).count == old(self).count,
            final(self).ordered_items == old(self).ordered_items,
    {
        let mut kept: Vec<(String, String)> = Vec::new();
        let n = self.custom_keys.len();
        let mut j: usize = 0;
        while j < n
            invariant
                n == self.custom_keys.len(),
                j <= n,
                forall|k: Seq<char>|
                    k != key@ ==> alias_in(kept@, k) == alias_in(self.custom_keys@.take(j as int), k),
                alias_in(kept@, key@) is None,
            decreases n - j,
        {
            let ghost before = kept@;
            let ghost prefix = self.custom_keys@.take(j + 1);
            let pair = &self.custom_keys[j];
            assert(prefix.drop_last() == self.custom_keys@.take(j as int));
            assert(prefix.last() == *pair);
            if pair.0 != *key {
                let k0 = pair.0.clone();
                let k1 = pair.1.clone();
                kept.push((k0, k1));
                assert(kept@.drop_last() == before);
                assert(kept@.last().0@ == prefix.last().0@);
                assert(kept@.last().1@ == prefix.last().1@);
                assert forall|k: Seq<char>| k != key@ implies alias_in(kept@, k) == alias_in(
                    prefix,
                    k,
                ) by {
                    assert(alias_in(before, k) == alias_in(self.custom_keys@.take(j as int), k));
                }
            } else {
                assert forall|k: Seq<char>| k != key@ implies alias_in(kept@, k) == alias_in(
                    prefix,
                    k,
                ) by {}
            }
            j = j + 1;
        }
        assert(self.custom_keys@.take(n as int) == self.custom_keys@);
        let ghost before = kept@;
        assert(forall|k: Seq<char>| k != key@ ==> alias_in(before, k) == self.alias(k));
        let k0 = key.clone();
        let k1 = id.clone();
        kept.push((k0, k1));
        assert(kept@.drop_last() == before);
        assert(kept@.last().0@ == key@);
        assert(kept@.last().1@ == id@);
        assert forall|k: Seq<char>| k != key@ implies alias_in(kept@, k) == old(self).alias(k) by {
            assert(alias_in(before, k) == old(self).alias(k));
        }
        self.custom_keys = kept;
    }
}

/// After an add, no key, like any key that reads as 0, names the item just
/// added.
pub proof fn lemma_latest_at_zero(before: Container, after: Container, item: ItemView, key: Seq<char>)
    requires
        after.items() == seq![item] + before.items(),
    ensures
        after.resolved(None) == Ok::<Seq<char>, Error>(item.id),
        index_of(encode_utf8(key)) == Some(0int) ==> after.resolved(Some(key)) == Ok::<
            Seq<char>,
            Error,
        >(item.id),
{
}

/// The items of an empty container after a run of adds are the added items
/// in reverse order.
proof fn lemma_items_reversed(states: Seq<Container>, added: Seq<ItemView>, j: int)
    requires
        states.len() == added.len() + 1,
        states[0].items().len() == 0,
        forall|m: int|
            0 <= m < added.len() ==> #[trigger] states[m + 1].items() == seq![added[m]]
                + states[m].items(),
        0 <= j <= added.len(),
    ensures
        states[j].items() == added.take(j).reverse(),
    decreases j,
{
    if j == 0 {
        assert(added.take(0).reverse() =~= Seq::<ItemView>::empty());
        assert(states[0].items() =~= Seq::<ItemView>::empty());
    } else {
        lemma_items_reversed(states, added, j - 1);
        assert(states[(j - 1) + 1].items() == seq![added[j - 1]] + states[j - 1].items());
        assert(added.take(j).reverse() =~= seq![added[j - 1]] + added.take(j - 1).reverse());
    }
}

/// After adds of `added[0]`, ..., `added[k - 1]`, in that order, to an
/// empty container, a key that reads as `i` names the `i`-th most recent
/// item, `added[k - 1 - i]`.
pub proof fn lemma_reverse_chronological(
    states: Seq<Container>,
    added: Seq<ItemView>,
    i: int,
    key: Seq<char>,
)
    requires
        states.len() == added.len() + 1,
        states[0].items().len() == 0,
        forall|m: int|
            0 <= m < added.len() ==> #[trigger] states[m + 1].items() == seq![added[m]]
                + states[m].items(),
        0 <= i < added.len(),
        index_of(encode_utf8(key)) == Some(i),
    ensures
        states[added.len() as int].resolved(Some(key)) == Ok::<Seq<char>, Error>(
            added[added.len() - 1 - i].id,
        ),
{
    lemma_items_reversed(states, added, added.len() as int);
    assert(added.take(added.len() as int) == added);
}

/// An add under an alias that does not read as a number makes the alias
/// name the new item, the same item that no key (position 0) names.
pub proof fn lemma_alias_names_latest(
    before: Container,
    after: Container,
    item: ItemView,
    alias: Seq<char>,
)
    requires
        after.items() == seq![item] + before.items(),
        after.alias(alias) == Some(item.id),
        index_of(encode_utf8(alias)) is None,
    ensures
        after.resolved(Some(alias)) == Ok::<Seq<char>, Error>(item.id),
        after.resolved(Some(alias)) == after.resolved(None),
{
}

/// A key that reads as a position at or past the last item names nothing,
/// and says so.
pub proof fn lemma_index_out_of_range(c: Container, key: Seq<char>, n: int)
    requires
        index_of(encode_utf8(key)) == Some(n),
        n >= c.items().len(),
    ensures
        c.resolved(Some(key)) == Err::<Seq<char>, Error>(Error::IndexOutOfRange),
{
}

/// A key that is neither a number nor a registered alias names nothing,
/// and says so.
pub proof fn lemma_unknown_alias(c: Container, key: Seq<char>)
    requires
        index_of(encode_utf8(key)) is None,
        c.alias(key) is None,
    ensures
        c.resolved(Some(key)) == Err::<Seq<char>, Error>(Error::UnknownKey),
{
}

/// Through a run of adds to a fresh container, none of them under `key`,
/// `key` stays unbound.
proof fn lemma_unbound_through(
    states: Seq<Container>,
    added: Seq<ItemView>,
    key: Seq<char>,
    j: int,
)
    requires
        states.len() == added.len() + 1,
        states[0].alias(key) is None,
        forall|m: int|
            0 <= m < added.len() && !added[m].keys.contains(key) ==> #[trigger] states[m
                + 1].alias(key) == states[m].alias(key),
        forall|m: int| 0 <= m < added.len() ==> !(#[trigger] added[m].keys.contains(key)),
        0 <= j <= added.len(),
    ensures
        states[j].alias(key) is None,
    decreases j,
{
    if j > 0 {
        lemma_unbound_through(states, added, key, j - 1);
        assert(!added[j - 1].keys.contains(key));
        assert(states[(j - 1) + 1].alias(key) == states[j - 1].alias(key));
    }
}

/// A key that is not a number and under which nothing was added to a
/// fresh container names nothing, and says so.
pub proof fn lemma_never_registered(
    states: Seq<Container>,
    added: Seq<ItemView>,
    key: Seq<char>,
)
    requires
        states.len() == added.len() + 1,
        states[0].alias(key) is None,
        forall|m: int|
            0 <= m < added.len() && !added[m].keys.contains(key) ==> #[trigger] states[m
                + 1].alias(key) == states[m].alias(key),
        forall|m: int| 0 <= m < added.len() ==> !(#[trigger] added[m].keys.contains(key)),
        index_of(encode_utf8(key)) is None,
    ensures
        states[added.len() as int].resolved(Some(key)) == Err::<Seq<char>, Error>(
            Error::UnknownKey,
        ),
{
    lemma_unbound_through(states, added, key, added.len() as int);
}

/// Opens the container `name`: the manifest that was stored for it, or a
/// fresh one when none was.
pub fn open(name: String, stored: Option<Container>) -> (r: Container)
    ensures
        match stored {
            Some(c) => r == c,
            None => r.is_fresh(name@),
        },
{
    match stored {
        Some(c) => c,
        None => Container::new(name),
    }
}

} // verus!

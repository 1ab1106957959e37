//! What is shown of the contact book and of this machine.

use vstd::prelude::*;

use crate::endpoint;
use crate::names;
use crate::numbers;
use crate::text;

verus! {

/// A contact in the contact book.
#[derive(Debug)]
pub struct Contact {
    pub id: String,
    pub name: String,
    pub endpoint_id: String,
    pub last_seen: Option<u64>,
    pub paired_at: u64,
}

/// A contact as the desktop window shows it.
#[derive(Debug)]
pub struct ContactDto {
    pub id: String,
    pub name: String,
    pub endpoint_short: String,
    pub endpoint_id: String,
    pub last_seen: Option<u64>,
    pub paired_at: u64,
}

/// The short form of the endpoint id of a contact.
pub open spec fn contact_short(c: Contact) -> Seq<char> {
    endpoint::shown_short(endpoint::endpoint_key_of(c.endpoint_id@), c.endpoint_id@)
}

/// Whether `d` shows the contact `c`: everything in it, and the short form of its
/// endpoint id.
pub open spec fn shows(d: ContactDto, c: Contact) -> bool {
    &&& d.id@ == c.id@
    &&& d.name@ == c.name@
    &&& d.endpoint_short@ == contact_short(c)
    &&& d.endpoint_id@ == c.endpoint_id@
    &&& d.last_seen == c.last_seen
    &&& d.paired_at == c.paired_at
}

/// A contact as the desktop window shows it.
pub fn contact_dto(c: &Contact) -> (r: ContactDto)
    ensures
        shows(r, *c),
{
    ContactDto {
        id: c.id.clone(),
        name: c.name.clone(),
        endpoint_short: endpoint::endpoint_short(c.endpoint_id.as_str()),
        endpoint_id: c.endpoint_id.clone(),
        last_seen: c.last_seen,
        paired_at: c.paired_at,
    }
}

/// The contacts as the desktop window shows them, in the order of the book.
pub fn list_contacts(book: &Vec<Contact>) -> (r: Vec<ContactDto>)
    ensures
        r@.len() == book@.len(),
        forall|i: int| 0 <= i < r@.len() ==> shows(#[trigger] r@[i], book@[i]),
{
    let mut out: Vec<ContactDto> = Vec::new();
    let mut i: usize = 0;
    while i < book.len()
        invariant
            i <= book@.len(),
            out@.len() == i,
            forall|k: int| 0 <= k < i ==> shows(#[trigger] out@[k], book@[k]),
        decreases book@.len() - i,
    {
        out.push(contact_dto(&book[i]));
        i += 1;
    }
    out
}

/// A line of the contact table: the id, the name, the endpoint and the time of
/// the last contact, in columns.
pub open spec fn table_line(
    id: Seq<char>,
    name: Seq<char>,
    short: Seq<char>,
    seen: Seq<char>,
) -> Seq<char> {
    text::padded(id, 16) + " "@ + text::padded(name, 24) + " "@ + text::padded(short, 12) + " "@
        + seen
}

/// A line of the contact table.
pub fn table_row(id: &str, name: &str, short: &str, seen: &str) -> (r: String)
    ensures
        r@ == table_line(id@, name@, short@, seen@),
{
    let mut out = text::pad(id, 16);
    out.append(" ");
    out.append(text::pad(name, 24).as_str());
    out.append(" ");
    out.append(text::pad(short, 12).as_str());
    out.append(" ");
    out.append(seen);
    out
}

/// The time of the last contact as the table shows it: a dash where there was
/// none.
pub open spec fn seen_text(last_seen: Option<u64>) -> Seq<char> {
    match last_seen {
        Some(t) => numbers::decimal_text(t as nat),
        None => "-"@,
    }
}

/// The line of the contact `c` in the contact table.
pub open spec fn contact_line(c: Contact) -> Seq<char> {
    table_line(
        c.id@,
        names::truncated(c.name@, 24),
        contact_short(c),
        seen_text(c.last_seen),
    )
}

/// The contact table: a heading and a line for each contact, or one line where
/// there are no contacts.
pub open spec fn table_lines(book: Seq<Contact>) -> Seq<Seq<char>> {
    if book.len() == 0 {
        seq!["(no contacts yet — run `hato pair` with a friend)"@]
    } else {
        seq![table_line("ID"@, "NAME"@, "ENDPOINT"@, "LAST SEEN"@)] + book.map_values(
            |c: Contact| contact_line(c),
        )
    }
}

/// The line of a contact in the contact table.
pub fn contact_row(c: &Contact) -> (r: String)
    ensures
        r@ == contact_line(*c),
{
    let short = endpoint::endpoint_short(c.endpoint_id.as_str());
    let seen = match c.last_seen {
        Some(t) => numbers::decimal(t as u128),
        None => "-".to_owned(),
    };
    let name = names::truncate(c.name.as_str(), 24);
    table_row(c.id.as_str(), name.as_str(), short.as_str(), seen.as_str())
}

/// The contact table.
pub fn contacts_table(book: &Vec<Contact>) -> (r: Vec<String>)
    ensures
        text::texts(r@) == table_lines(book@),
{
    let mut out: Vec<String> = Vec::new();
    if book.len() == 0 {
        out.push("(no contacts yet — run `hato pair` with a friend)".to_owned());
        assert(text::texts(out@) =~= table_lines(book@));
        return out;
    }
    let ghost heading = table_line("ID"@, "NAME"@, "ENDPOINT"@, "LAST SEEN"@);
    out.push(table_row("ID", "NAME", "ENDPOINT", "LAST SEEN"));
    let mut i: usize = 0;
    while i < book.len()
        invariant
            i <= book@.len(),
            out@.len() == i + 1,
            out@[0]@ == heading,
            forall|k: int| 0 <= k < i ==> (#[trigger] out@[k + 1])@ == contact_line(book@[k]),
        decreases book@.len() - i,
    {
        out.push(contact_row(&book[i]));
        i += 1;
    }
    proof {
        let want = table_lines(book@);
        assert forall|k: int| 0 <= k < want.len() implies text::texts(out@)[k] == want[k] by {
            if k > 0 {
                assert(out@[(k - 1) + 1]@ == contact_line(book@[k - 1]));
            }
        }
        assert(text::texts(out@) =~= want);
    }
    out
}

/// The columns line up: whatever the name of a contact, its endpoint begins at
/// the same place, as long as its id fits in its column.
pub proof fn law_columns_line_up(c: Contact)
    requires
        c.id@.len() <= 16,
    ensures
        contact_line(c).len() >= 54,
        contact_line(c).subrange(42, 42int + contact_short(c).len()) == contact_short(c),
{
    reveal_strlit(" ");
    names::law_truncated_fits(c.name@, 24);
    let id = text::padded(c.id@, 16);
    let name = text::padded(names::truncated(c.name@, 24), 24);
    let short = text::padded(contact_short(c), 12);
    assert(id.len() == 16 && name.len() == 24 && short.len() >= 12);
    let line = contact_line(c);
    assert(line.subrange(42, 42int + contact_short(c).len()) =~= contact_short(c));
}

/// What the desktop window shows of this machine.
#[derive(Debug)]
pub struct MeInfo {
    pub display_name: String,
    pub endpoint_id: String,
    pub endpoint_short: String,
    pub config_dir: String,
}

/// What is shown of the machine with the secret key `secret`. Where the directory
/// of the configuration is not known, nothing is shown for it.
pub fn me_info(display_name: String, secret: &[u8; 32], config_dir: Option<String>) -> (r: MeInfo)
    ensures
        r.display_name == display_name,
        r.endpoint_id@ == numbers::hex_text(endpoint::public_key_of(secret@)),
        r.endpoint_short@ == endpoint::short_text(endpoint::public_key_of(secret@)),
        r.config_dir@ == match config_dir {
            Some(d) => d@,
            None => Seq::empty(),
        },
{
    let me = endpoint::identity_of(secret);
    let config_dir = match config_dir {
        Some(d) => d,
        None => String::new(),
    };
    MeInfo { display_name, endpoint_id: me.id, endpoint_short: me.short, config_dir }
}

/// What the terminal says of a machine.
pub open spec fn me_lines(
    name: Seq<char>,
    id: Seq<char>,
    short: Seq<char>,
    config_dir: Option<Seq<char>>,
) -> Seq<Seq<char>> {
    let lines = seq![
        "🐦  you are:"@,
        "    name:         "@ + name,
        "    endpoint id:  "@ + id,
        "    short:        "@ + short,
    ];
    match config_dir {
        Some(d) => lines.push("    config dir:   "@ + d),
        None => lines,
    }
}

/// What the terminal says of the machine with the endpoint id `id`.
pub fn me_report_of(name: &str, id: &str, short: &str, config_dir: Option<String>) -> (r: Vec<
    String,
>)
    ensures
        text::texts(r@) == me_lines(name@, id@, short@, text::opt_text(config_dir)),
{
    let mut out: Vec<String> = Vec::new();
    out.push("🐦  you are:".to_owned());
    let mut line = "    name:         ".to_owned();
    line.append(name);
    out.push(line);
    let mut line = "    endpoint id:  ".to_owned();
    line.append(id);
    out.push(line);
    let mut line = "    short:        ".to_owned();
    line.append(short);
    out.push(line);
    if let Some(d) = &config_dir {
        let mut line = "    config dir:   ".to_owned();
        line.append(d.as_str());
        out.push(line);
    }
    assert(text::texts(out@) =~= me_lines(name@, id@, short@, text::opt_text(config_dir)));
    out
}

/// What the terminal says of the machine with the secret key `secret`.
pub fn me_report(name: &str, secret: &[u8; 32], config_dir: Option<String>) -> (r: Vec<String>)
    ensures
        text::texts(r@) == me_lines(
            name@,
            numbers::hex_text(endpoint::public_key_of(secret@)),
            endpoint::short_text(endpoint::public_key_of(secret@)),
            text::opt_text(config_dir),
        ),
{
    let me = endpoint::identity_of(secret);
    me_report_of(name, me.id.as_str(), me.short.as_str(), config_dir)
}

/// What the window shows of a contact is all that is in the book of it, whole.
pub proof fn law_contact_is_shown_whole(d: ContactDto, c: Contact)
    requires
        shows(d, c),
    ensures
        d.id@ == c.id@ && d.name@ == c.name@ && d.endpoint_id@ == c.endpoint_id@,
        d.last_seen == c.last_seen && d.paired_at == c.paired_at,
        endpoint::endpoint_key_of(c.endpoint_id@) is Err ==> d.endpoint_short@ == text::at_most(
            c.endpoint_id@,
            10,
        ),
        endpoint::endpoint_key_of(c.endpoint_id@) matches Ok(key) ==> d.endpoint_short@
            == numbers::hex_text(key.take(5)),
{
}

/// The table has a heading and then a line for each contact, in the order of the book.
pub proof fn law_table_has_a_line_for_each(book: Seq<Contact>, i: int)
    requires
        0 <= i < book.len(),
    ensures
        table_lines(book).len() == book.len() + 1,
        table_lines(book)[i + 1] == contact_line(book[i]),
        table_lines(book)[0] == table_line("ID"@, "NAME"@, "ENDPOINT"@, "LAST SEEN"@),
{
}

/// The line of a contact begins with its id, whole, and ends with when it was last seen:
/// the time as a numeral, or a dash. A name that fits its column stands there whole.
pub proof fn law_line_tells_of_the_contact(c: Contact)
    ensures
        contact_line(c).take(c.id@.len() as int) == c.id@,
        text::has_end(contact_line(c), seen_text(c.last_seen)),
        c.last_seen matches Some(t) ==> seen_text(c.last_seen) == numbers::decimal_text(t as nat),
        c.last_seen is None ==> seen_text(c.last_seen) == "-"@,
        c.name@.len() <= 24 ==> text::has_part(contact_line(c), c.name@),
        text::has_part(contact_line(c), contact_short(c)),
{
    let name = names::truncated(c.name@, 24);
    let id = text::padded(c.id@, 16);
    let named = text::padded(name, 24);
    let short = text::padded(contact_short(c), 12);
    let seen = seen_text(c.last_seen);
    let line = contact_line(c);
    text::law_padded_goes_on_with_blanks(c.id@, 16);
    text::law_padded_goes_on_with_blanks(name, 24);
    text::law_padded_goes_on_with_blanks(contact_short(c), 12);
    assert(line =~= id + " "@ + named + " "@ + short + " "@ + seen);
    assert(line.take(c.id@.len() as int) =~= id.take(c.id@.len() as int));
    text::law_has_its_parts(id + " "@ + named + " "@ + short + " "@, seen, Seq::empty());
    let blanks = named.skip(name.len() as int);
    assert(named =~= name + blanks);
    text::law_has_its_parts(id + " "@, name, blanks + " "@ + short + " "@ + seen);
    assert(id + " "@ + name + (blanks + " "@ + short + " "@ + seen) =~= line);
    let more = short.skip(contact_short(c).len() as int);
    assert(short =~= contact_short(c) + more);
    text::law_has_its_parts(id + " "@ + named + " "@, contact_short(c), more + " "@ + seen);
    assert(id + " "@ + named + " "@ + contact_short(c) + (more + " "@ + seen) =~= line);
}

/// What the terminal says of a machine holds its name, its id and the short form of that,
/// whole, and where the configuration is, if that is known.
pub proof fn law_machine_is_told_whole(
    name: Seq<char>,
    id: Seq<char>,
    short: Seq<char>,
    dir: Seq<char>,
)
    ensures
        me_lines(name, id, short, None).len() == 4,
        me_lines(name, id, short, Some(dir)).len() == 5,
        text::has_end(me_lines(name, id, short, None)[1], name),
        text::has_end(me_lines(name, id, short, None)[2], id),
        text::has_end(me_lines(name, id, short, None)[3], short),
        text::has_end(me_lines(name, id, short, Some(dir))[4], dir),
        me_lines(name, id, short, Some(dir)).drop_last() == me_lines(name, id, short, None),
{
    let none = Seq::<char>::empty();
    text::law_has_its_parts("    name:         "@, name, none);
    text::law_has_its_parts("    endpoint id:  "@, id, none);
    text::law_has_its_parts("    short:        "@, short, none);
    text::law_has_its_parts("    config dir:   "@, dir, none);
    assert(me_lines(name, id, short, Some(dir)).drop_last() =~= me_lines(name, id, short, None));
}

/// Where the book is empty, one line says so, and how to get a contact.
pub proof fn law_empty_book_is_told()
    ensures
        table_lines(Seq::empty()).len() == 1,
        text::has_part(table_lines(Seq::empty())[0], "no contacts yet"@),
        text::has_part(table_lines(Seq::empty())[0], "`hato pair`"@),
{
    let t = "(no contacts yet — run `hato pair` with a friend)"@;
    reveal_strlit("(no contacts yet — run `hato pair` with a friend)");
    reveal_strlit("no contacts yet");
    reveal_strlit("`hato pair`");
    assert(t.subrange(1, 16) =~= "no contacts yet"@);
    assert(text::occurs_at(t, "no contacts yet"@, 1));
    assert(t.subrange(23, 34) =~= "`hato pair`"@);
    assert(text::occurs_at(t, "`hato pair`"@, 23));
}

} // verus!

//! Confirmation of a pending group: the group becomes a team, its members are
//! recorded under the new team, and the pending entry is removed, all in one
//! transaction.

use vstd::prelude::*;

use crate::reply::{reply_is, Reply, Status};

verus! {

/// One member of a group to confirm.
#[derive(Debug)]
pub struct ArtistMemberInfo {
    pub name: String,
    pub profile_image: String,
}

/// The confirmation form of a pending group.
#[derive(Debug)]
pub struct ConfirmInfo {
    pub name: String,
    pub logo: String,
    pub group_photo: String,
    pub ticker: String,
    pub gender: String,
    pub types: String,
    pub agency_id: i64,
    pub acronyms: String,
    pub artist_members: Vec<ArtistMemberInfo>,
}

/// The values of the new team, in the column order of its insert:
/// name, logo, group photo, ticker, gender, type, agency, acronyms.
#[derive(Debug, PartialEq, Eq)]
pub struct TeamRecord {
    pub name: String,
    pub logo: String,
    pub group_photo: String,
    pub ticker: String,
    pub gender: String,
    pub team_type: String,
    pub agency_id: i64,
    pub acronyms: String,
}

/// The values of one new member: name, profile image, team.
#[derive(Debug, PartialEq, Eq)]
pub struct MemberRecord {
    pub name: String,
    pub profile_image: String,
    pub team_id: i64,
}

/// A statement of the transaction that follows the team's insert.
#[derive(Debug, PartialEq, Eq)]
pub enum ConfirmStatement {
    /// Insert a member of the new team.
    InsertMember(MemberRecord),
    /// Delete the pending entry of this name.
    DeleteTempTeam(String),
}

/// The team record for a confirmation form.
pub open spec fn team_record_of(info: ConfirmInfo) -> TeamRecord {
    TeamRecord {
        name: info.name,
        logo: info.logo,
        group_photo: info.group_photo,
        ticker: info.ticker,
        gender: info.gender,
        team_type: info.types,
        agency_id: info.agency_id,
        acronyms: info.acronyms,
    }
}

/// The member record for a member of the team with id `team_id`.
pub open spec fn member_record_of(m: ArtistMemberInfo, team_id: i64) -> MemberRecord {
    MemberRecord { name: m.name, profile_image: m.profile_image, team_id }
}

/// The statements that follow the insert of the team `team_id`: one member
/// insert per member, in the form's order, then the removal of the pending
/// entry of the group's name.
pub open spec fn statements_after_team(info: ConfirmInfo, team_id: i64) -> Seq<ConfirmStatement> {
    Seq::new(
        info.artist_members@.len(),
        |i: int| ConfirmStatement::InsertMember(member_record_of(info.artist_members@[i], team_id)),
    ).push(ConfirmStatement::DeleteTempTeam(info.name))
}

/// Refuses a confirmation by anyone not signed in with `403 Access Denied`.
pub fn confirm_group_api(signed_in: bool) -> (r: Result<(), Reply>)
    ensures
        r is Ok <==> signed_in,
        r matches Err(e) ==> reply_is(e, Status::Forbidden, "Access Denied"@),
{
    if !signed_in {
        return Err(Reply::forbidden("Access Denied"));
    }
    Ok(())
}

/// The values that the team's insert takes from the form.
pub fn create_team(info: &ConfirmInfo) -> (t: TeamRecord)
    ensures
        t == team_record_of(*info),
        t.name == info.name,
        t.logo == info.logo,
        t.group_photo == info.group_photo,
        t.ticker == info.ticker,
        t.gender == info.gender,
        t.team_type == info.types,
        t.agency_id == info.agency_id,
        t.acronyms == info.acronyms,
{
    TeamRecord {
        name: info.name.clone(),
        logo: info.logo.clone(),
        group_photo: info.group_photo.clone(),
        ticker: info.ticker.clone(),
        gender: info.gender.clone(),
        team_type: info.types.clone(),
        agency_id: info.agency_id,
        acronyms: info.acronyms.clone(),
    }
}

/// The values of a member's insert under the team `team_id`.
pub fn create_artist_member(member: &ArtistMemberInfo, team_id: i64) -> (m: MemberRecord)
    ensures
        m == member_record_of(*member, team_id),
        m.name == member.name,
        m.profile_image == member.profile_image,
        m.team_id == team_id,
{
    MemberRecord {
        name: member.name.clone(),
        profile_image: member.profile_image.clone(),
        team_id,
    }
}

/// The name of the pending entry that the confirmation removes.
pub fn delete_temp_team(info: &ConfirmInfo) -> (name: String)
    ensures
        name == info.name,
{
    info.name.clone()
}

/// The statements of the transaction after the team's insert returned the id
/// `team_id`, in the order they are run.
pub fn confirm_statements(info: &ConfirmInfo, team_id: i64) -> (s: Vec<ConfirmStatement>)
    ensures
        s@ == statements_after_team(*info, team_id),
        s@.len() == info.artist_members@.len() + 1,
        forall|k: int|
            0 <= k < info.artist_members@.len() ==> #[trigger] s@[k]
                == ConfirmStatement::InsertMember(
                MemberRecord {
                    name: info.artist_members@[k].name,
                    profile_image: info.artist_members@[k].profile_image,
                    team_id,
                },
            ),
        s@.last() == ConfirmStatement::DeleteTempTeam(info.name),
{
    let mut s: Vec<ConfirmStatement> = Vec::new();
    let n = info.artist_members.len();
    let mut i: usize = 0;
    while i < n
        invariant
            n == info.artist_members@.len(),
            i <= n,
            s@ =~= Seq::new(
                i as nat,
                |k: int|
                    ConfirmStatement::InsertMember(
                        member_record_of(info.artist_members@[k], team_id),
                    ),
            ),
        decreases n - i,
    {
        let m = create_artist_member(&info.artist_members[i], team_id);
        s.push(ConfirmStatement::InsertMember(m));
        i = i + 1;
    }
    s.push(ConfirmStatement::DeleteTempTeam(delete_temp_team(info)));
    s
}

/// The answer once the transaction is committed.
pub fn confirmed_reply() -> (r: Reply)
    ensures
        reply_is(r, Status::Success, "Group confirmed successfully"@),
{
    Reply::ok("Group confirmed successfully")
}

/// The team record copies each field of the form to its own column, whatever
/// the members are.
pub proof fn lemma_team_record_columns(info: ConfirmInfo)
    ensures
        team_record_of(info).name == info.name,
        team_record_of(info).logo == info.logo,
        team_record_of(info).group_photo == info.group_photo,
        team_record_of(info).ticker == info.ticker,
        team_record_of(info).gender == info.gender,
        team_record_of(info).team_type == info.types,
        team_record_of(info).agency_id == info.agency_id,
        team_record_of(info).acronyms == info.acronyms,
{
}

/// Every member of the form gets exactly one insert, in the form's order and
/// under the new team's id, and the removal of the pending entry of the
/// group's name comes last.
pub proof fn lemma_every_member_inserted(info: ConfirmInfo, team_id: i64)
    ensures
        statements_after_team(info, team_id).len() == info.artist_members@.len() + 1,
        forall|k: int|
            0 <= k < info.artist_members@.len() ==> #[trigger] statements_after_team(info, team_id)[k]
                == ConfirmStatement::InsertMember(
                MemberRecord {
                    name: info.artist_members@[k].name,
                    profile_image: info.artist_members@[k].profile_image,
                    team_id,
                },
            ),
        statements_after_team(info, team_id).last() == ConfirmStatement::DeleteTempTeam(info.name),
{
}

} // verus!

//! Statement splitting of SQL query texts, for both the query type and a
//! migration's content.
use tern::query::Query;

const SQL_IN1: &str = "
-- This is a comment.
SELECT
  *
FROM
  the_schema.the_table
WHERE
  everything = 'is_good'
";
const SQL_OUT1: &str = "SELECT
  *
FROM
  the_schema.the_table
WHERE
  everything = 'is_good';
";
const SQL_IN2: &str = "
-- tern:noTransaction
SELECT count(e.*),
  e.x,
  e.y -- This is the column called `y`
FROM /* A comment block can even be like this */ the_table
  as e
JOIN another USING (id)
/*
This is a multi
line
comment
*/
WHERE false;

SELECT a
from x
-- Asdfsdfsdfsdfsdsdf /* Unnecessary comment */
where false

;
";
const SQL_OUT21: &str = "SELECT count(e.*),
  e.x,
  e.y
FROM  the_table
  as e
JOIN another USING (id)
WHERE false;
";

const SQL_OUT22: &str = "SELECT a
from x
where false
;
";

#[test]
fn query_split_one() {
    let q1 = Query::new(SQL_IN1.to_string());
    let res1 = q1.split_statements();
    assert!(res1.is_ok());
    let split1 = res1.unwrap();
    assert_eq!(split1, vec![SQL_OUT1.to_string()]);
}

#[test]
fn query_split_two() {
    let q2 = Query::new(SQL_IN2.to_string());
    let res2 = q2.split_statements();
    assert!(res2.is_ok());
    let split2 = res2.unwrap();
    assert_eq!(split2, vec![SQL_OUT21.to_string(), SQL_OUT22.to_string()]);
}

#[test]
fn migration_split_one() {
    let q1 = Query::new(SQL_IN1.to_string());
    let res1 = q1.split_statements();
    assert!(res1.is_ok());
    let split1 = res1.unwrap();
    assert_eq!(split1, vec![SQL_OUT1.to_string()]);
}

#[test]
fn migration_split_two() {
    let q2 = Query::new(SQL_IN2.to_string());
    let res2 = q2.split_statements();
    assert!(res2.is_ok());
    let split2 = res2.unwrap();
    assert_eq!(split2, vec![SQL_OUT21.to_string(), SQL_OUT22.to_string()]);
}
